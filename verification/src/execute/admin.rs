//! Who may administer the pool, and what only they may set.
use vstd::prelude::*;

use crate::error::ContractError;
use crate::models::Config;
use crate::models::Owner;
use crate::state::State;
use crate::utils::PCT_SCALE;
use crate::view::StateView;

verus! {

/// Whether `principal` may administer the pool: it is the owner, or the
/// owner is an access control list and the list admits it.
pub open spec fn is_allowed(owner: Owner, principal: Seq<char>, acl_allows: bool) -> bool {
    match owner {
        Owner::Address(address) => address@ == principal,
        Owner::Acl(_) => acl_allows,
    }
}

/// Refuses a principal that may not administer the pool. Where the owner is
/// an access control list, `acl_allows` is what the list has answered for
/// the principal and the action at hand.
pub fn ensure_sender_is_allowed(owner: &Owner, principal: &String, acl_allows: bool) -> (r: Result<
    (),
    ContractError,
>)
    ensures
        is_allowed(*owner, principal@, acl_allows) ==> r is Ok,
        !is_allowed(*owner, principal@, acl_allows) ==> r == Err::<(), ContractError>(
            ContractError::NotAuthorized,
        ),
{
    let allowed = match owner {
        Owner::Address(address) => *principal == *address,
        Owner::Acl(_) => acl_allows,
    };
    if !allowed {
        Err(ContractError::NotAuthorized)
    } else {
        Ok(())
    }
}

/// Setting the pool's configuration: neither rate may be above the whole.
pub open spec fn set_config_spec(s: StateView, sender: Seq<char>, acl_allows: bool, config: Config) -> Result<
    StateView,
    ContractError,
> {
    if !is_allowed(s.owner, sender, acl_allows) {
        Err(ContractError::NotAuthorized)
    } else if config.tax_rate > PCT_SCALE || config.restake_rate > PCT_SCALE {
        Err(ContractError::ValidationError)
    } else {
        Ok(StateView { config, ..s })
    }
}

/// Sets the configuration of the pool.
pub fn set_config(state: &mut State, sender: &String, acl_allows: bool, config: Config) -> (r: Result<
    (),
    ContractError,
>)
    requires
        old(state)@.wf(),
    ensures
        match set_config_spec(old(state)@, sender@, acl_allows, config) {
            Err(e) => r == Err::<(), ContractError>(e) && final(state)@ == old(state)@,
            Ok(s) => r is Ok && final(state)@ == s,
        },
        final(state)@.wf(),
{
    ensure_sender_is_allowed(state.owner(), sender, acl_allows)?;
    if config.tax_rate > PCT_SCALE || config.restake_rate > PCT_SCALE {
        return Err(ContractError::ValidationError);
    }
    state.set_config(config);
    Ok(())
}

/// Hands the pool to another owner.
pub fn set_owner(state: &mut State, sender: &String, acl_allows: bool, owner: Owner) -> (r: Result<
    (),
    ContractError,
>)
    requires
        old(state)@.wf(),
    ensures
        is_allowed(old(state)@.owner, sender@, acl_allows) ==> r is Ok && final(state)@ == (
        StateView { owner, ..old(state)@ }),
        !is_allowed(old(state)@.owner, sender@, acl_allows) ==> r == Err::<(), ContractError>(
            ContractError::NotAuthorized,
        ) && final(state)@ == old(state)@,
        final(state)@.wf(),
{
    ensure_sender_is_allowed(state.owner(), sender, acl_allows)?;
    state.set_owner(owner);
    Ok(())
}

} // verus!
