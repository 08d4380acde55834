use vstd::prelude::*;

use crate::error::ContractError;
use crate::execute::process::process;
use crate::execute::process::process_spec;
use crate::models::AccountTokenAmount;
use crate::models::BlockInfo;
use crate::state::State;
use crate::state::ensure_min_amount;

verus! {

/// Pays `payment` out of the pool to `recipient` for a client. This is the
/// client's job with nothing coming in and that amount going out, on
/// behalf of the recipient, who is rate limited beside the client. Tells
/// whether the rate limiter was triggered, in which case nothing is paid.
pub fn pay(
    state: &mut State,
    block: &BlockInfo,
    client_address: &String,
    payment: u128,
    recipient: &String,
) -> (r: Result<bool, ContractError>)
    requires
        old(state)@.wf(),
    ensures
        payment == 0 ==> r == Err::<bool, ContractError>(ContractError::InsufficientAmount)
            && final(state)@ == old(state)@,
        payment != 0 ==> match process_spec(
            old(state)@,
            *block,
            *client_address,
            *recipient,
            None,
            Some(AccountTokenAmount { address: *recipient, amount: payment }),
        ) {
            Err(e) => r == Err::<bool, ContractError>(e) && final(state)@ == old(state)@,
            Ok((s, triggered)) => r == Ok::<bool, ContractError>(triggered) && final(state)@
                == s,
        },
        final(state)@.wf(),
{
    ensure_min_amount(payment, 1)?;
    process(
        state,
        block,
        client_address,
        recipient,
        &None,
        &Some(AccountTokenAmount { address: recipient.clone(), amount: payment }),
    )
}

} // verus!
