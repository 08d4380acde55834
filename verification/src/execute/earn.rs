use vstd::prelude::*;

use crate::error::ContractError;
use crate::execute::process::process;
use crate::execute::process::process_spec;
use crate::models::AccountTokenAmount;
use crate::models::BlockInfo;
use crate::state::State;
use crate::state::ensure_min_amount;

verus! {

/// Takes `revenue` into the pool for a client, from the client itself or
/// from `from_address`. This is the client's job with that amount coming
/// in and nothing going out, on the client's own behalf.
pub fn earn(
    state: &mut State,
    block: &BlockInfo,
    client_address: &String,
    revenue: u128,
    from_address: Option<String>,
) -> (r: Result<(), ContractError>)
    requires
        old(state)@.wf(),
    ensures
        revenue == 0 ==> r == Err::<(), ContractError>(ContractError::InsufficientAmount)
            && final(state)@ == old(state)@,
        revenue != 0 ==> match process_spec(
            old(state)@,
            *block,
            *client_address,
            *client_address,
            Some(
                AccountTokenAmount {
                    address: match from_address {
                        Some(address) => address,
                        None => *client_address,
                    },
                    amount: revenue,
                },
            ),
            None,
        ) {
            Err(e) => r == Err::<(), ContractError>(e) && final(state)@ == old(state)@,
            Ok((s, _)) => r is Ok && final(state)@ == s,
        },
        final(state)@.wf(),
{
    ensure_min_amount(revenue, 1)?;
    let from_address = match from_address {
        Some(address) => address,
        None => client_address.clone(),
    };
    process(
        state,
        block,
        client_address,
        client_address,
        &Some(AccountTokenAmount { address: from_address, amount: revenue }),
        &None,
    )?;
    Ok(())
}

} // verus!
