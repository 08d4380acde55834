//! The registry of clients.
use vstd::prelude::*;

use crate::error::ContractError;
use crate::execute::admin::ensure_sender_is_allowed;
use crate::execute::admin::is_allowed;
use crate::models::BlockInfo;
use crate::models::Client;
use crate::models::ClientConfig;
use crate::models::ClientInitArgs;
use crate::models::Timestamp;
use crate::models::Usage;
use crate::state::State;
use crate::table::Keyed;
use crate::table::position;
use crate::table::with_value;
use crate::view::StateView;
use crate::view::settled;

verus! {

/// The client that the owner's words describe, connected at `now`: with
/// the pool's default rate limit where the words name none, not suspended,
/// and with empty books.
pub open spec fn client_of(s: StateView, now: Timestamp, init_args: ClientInitArgs) -> Client {
    Client {
        address: None,
        config: ClientConfig {
            name: init_args.name,
            description: init_args.description,
            url: init_args.url,
            budget: init_args.budget,
            rate_limit: match init_args.rate_limit {
                Some(rate_limit) => rate_limit,
                None => s.config.default_client_rate_limit,
            },
        },
        connected_at: now,
        is_suspended: false,
        revenue: 0,
        expense: 0,
    }
}

/// Connecting a client: the owner's words must name an address, and one
/// under which no client is connected yet.
pub open spec fn connect_spec(
    s: StateView,
    now: Timestamp,
    sender: Seq<char>,
    acl_allows: bool,
    init_args: ClientInitArgs,
) -> Result<StateView, ContractError> {
    if !is_allowed(s.owner, sender, acl_allows) {
        Err(ContractError::NotAuthorized)
    } else {
        match init_args.address {
            None => Err(ContractError::NotAuthorized),
            Some(address) => if position(s.clients, address@) is Some {
                Err(ContractError::NotAuthorized)
            } else if s.n_clients == u32::MAX {
                Err(ContractError::Overflow)
            } else {
                Ok(
                    StateView {
                        clients: s.clients.push(
                            Keyed { address: address@, value: client_of(s, now, init_args) },
                        ),
                        n_clients: (s.n_clients + 1) as u32,
                        ..s
                    },
                )
            },
        }
    }
}

/// Connects a client to the pool.
pub fn connect(
    state: &mut State,
    now: Timestamp,
    sender: &String,
    acl_allows: bool,
    init_args: ClientInitArgs,
) -> (r: Result<(), ContractError>)
    requires
        old(state)@.wf(),
    ensures
        match connect_spec(old(state)@, now, sender@, acl_allows, init_args) {
            Err(e) => r == Err::<(), ContractError>(e) && final(state)@ == old(state)@,
            Ok(s) => r is Ok && final(state)@ == s,
        },
        final(state)@.wf(),
{
    ensure_sender_is_allowed(state.owner(), sender, acl_allows)?;
    let default_rate_limit = state.config().default_client_rate_limit;
    let ClientInitArgs { address, name, description, url, budget, rate_limit } = init_args;
    let address = match address {
        Some(address) => address,
        // The address is missing.
        None => { return Err(ContractError::NotAuthorized); },
    };
    if state.find_client(&address).is_some() {
        // The client is connected already.
        return Err(ContractError::NotAuthorized);
    }
    let n_clients = state.n_clients();
    if n_clients == u32::MAX {
        return Err(ContractError::Overflow);
    }
    let client = Client::new(
        now,
        None,
        budget,
        name,
        description,
        url,
        match rate_limit {
            Some(rate_limit) => rate_limit,
            None => default_rate_limit,
        },
    );
    state.push_client(address, client);
    state.set_n_clients(n_clients + 1);
    Ok(())
}

/// Disconnecting a client: the client under the address, if there is one,
/// is gone.
pub open spec fn disconnect_spec(
    s: StateView,
    sender: Seq<char>,
    acl_allows: bool,
    client_address: Seq<char>,
) -> Result<StateView, ContractError> {
    if !is_allowed(s.owner, sender, acl_allows) {
        Err(ContractError::NotAuthorized)
    } else {
        match position(s.clients, client_address) {
            None => Ok(s),
            Some(i) => Ok(
                StateView {
                    clients: s.clients.remove(i),
                    n_clients: (s.n_clients - 1) as u32,
                    ..s
                },
            ),
        }
    }
}

/// Disconnects a client from the pool.
pub fn disconnect(state: &mut State, sender: &String, acl_allows: bool, client_address: &String) -> (r:
    Result<(), ContractError>)
    requires
        old(state)@.wf(),
    ensures
        match disconnect_spec(old(state)@, sender@, acl_allows, client_address@) {
            Err(e) => r == Err::<(), ContractError>(e) && final(state)@ == old(state)@,
            Ok(s) => r is Ok && final(state)@ == s,
        },
        final(state)@.wf(),
{
    ensure_sender_is_allowed(state.owner(), sender, acl_allows)?;
    match state.find_client(client_address) {
        Some(i) => {
            let n_clients = state.n_clients();
            state.remove_client(i);
            state.set_n_clients(n_clients - 1);
        },
        None => {},
    }
    Ok(())
}

/// A state with the client under an address suspended or not; there must
/// be such a client.
pub open spec fn suspension_spec(
    s: StateView,
    sender: Seq<char>,
    acl_allows: bool,
    client_address: Seq<char>,
    is_suspended: bool,
) -> Result<StateView, ContractError> {
    if !is_allowed(s.owner, sender, acl_allows) {
        Err(ContractError::NotAuthorized)
    } else {
        match position(s.clients, client_address) {
            None => Err(ContractError::NotAuthorized),
            Some(i) => {
                let client = s.clients[i].value;
                Ok(
                    StateView {
                        clients: s.clients.update(
                            i,
                            Keyed {
                                address: s.clients[i].address,
                                value: settled(
                                    client,
                                    client.config.budget,
                                    is_suspended,
                                    client.revenue,
                                    client.expense,
                                ),
                            },
                        ),
                        ..s
                    },
                )
            },
        }
    }
}

/// Marks the client at a position as suspended or not.
fn set_suspended(state: &mut State, i: usize, is_suspended: bool)
    requires
        i < old(state)@.clients.len(),
    ensures
        final(state)@ == (StateView {
            clients: old(state)@.clients.update(
                i as int,
                Keyed {
                    address: old(state)@.clients[i as int].address,
                    value: settled(
                        old(state)@.clients[i as int].value,
                        old(state)@.clients[i as int].value.config.budget,
                        is_suspended,
                        old(state)@.clients[i as int].value.revenue,
                        old(state)@.clients[i as int].value.expense,
                    ),
                },
            ),
            ..old(state)@
        }),
{
    let budget = state.client_at(i).config.budget;
    let revenue = state.client_at(i).revenue;
    let expense = state.client_at(i).expense;
    state.settle_client(i, budget, is_suspended, revenue, expense);
}

/// Suspends a client: it can process no job until it is resumed.
pub fn suspend(state: &mut State, sender: &String, acl_allows: bool, client_address: &String) -> (r:
    Result<(), ContractError>)
    requires
        old(state)@.wf(),
    ensures
        match suspension_spec(old(state)@, sender@, acl_allows, client_address@, true) {
            Err(e) => r == Err::<(), ContractError>(e) && final(state)@ == old(state)@,
            Ok(s) => r is Ok && final(state)@ == s,
        },
        final(state)@.wf(),
{
    ensure_sender_is_allowed(state.owner(), sender, acl_allows)?;
    match state.find_client(client_address) {
        Some(i) => {
            set_suspended(state, i, true);
            Ok(())
        },
        // The client is not found.
        None => Err(ContractError::NotAuthorized),
    }
}

/// Resuming a client: it is no longer suspended, and its record with the
/// rate limiter starts anew in this block, at the pool's current
/// liquidity.
pub open spec fn resume_spec(
    s: StateView,
    block: BlockInfo,
    sender: Seq<char>,
    acl_allows: bool,
    client_address: Seq<char>,
) -> Result<StateView, ContractError> {
    match suspension_spec(s, sender, acl_allows, client_address, false) {
        Err(e) => Err(e),
        Ok(s1) => Ok(
            StateView {
                usage: with_value(
                    s.usage,
                    client_address,
                    Usage {
                        start_liquidity: s.pool.liquidity,
                        start_time: block.time,
                        prev_height: block.height,
                        spent: 0,
                        added: 0,
                    },
                ),
                ..s1
            },
        ),
    }
}

/// Resumes a suspended client.
pub fn resume(
    state: &mut State,
    block: &BlockInfo,
    sender: &String,
    acl_allows: bool,
    client_address: &String,
) -> (r: Result<(), ContractError>)
    requires
        old(state)@.wf(),
    ensures
        match resume_spec(old(state)@, *block, sender@, acl_allows, client_address@) {
            Err(e) => r == Err::<(), ContractError>(e) && final(state)@ == old(state)@,
            Ok(s) => r is Ok && final(state)@ == s,
        },
        final(state)@.wf(),
{
    ensure_sender_is_allowed(state.owner(), sender, acl_allows)?;
    let i = match state.find_client(client_address) {
        Some(i) => i,
        // The client is not found.
        None => { return Err(ContractError::NotAuthorized); },
    };
    set_suspended(state, i, false);
    // Clear what the client has used of the pool.
    let liquidity = state.pool().liquidity;
    state.put_usage(
        client_address,
        Usage {
            spent: 0,
            added: 0,
            prev_height: block.height,
            start_liquidity: liquidity,
            start_time: block.time,
        },
    );
    Ok(())
}

/// Setting a client's configuration: there must be a client under the
/// address.
pub open spec fn set_client_config_spec(
    s: StateView,
    sender: Seq<char>,
    acl_allows: bool,
    client_address: Seq<char>,
    config: ClientConfig,
) -> Result<StateView, ContractError> {
    if !is_allowed(s.owner, sender, acl_allows) {
        Err(ContractError::NotAuthorized)
    } else {
        match position(s.clients, client_address) {
            None => Err(ContractError::ClientNotFound),
            Some(i) => Ok(
                StateView {
                    clients: s.clients.update(
                        i,
                        Keyed {
                            address: s.clients[i].address,
                            value: Client { config, ..s.clients[i].value },
                        },
                    ),
                    ..s
                },
            ),
        }
    }
}

/// Sets the configuration of a client.
pub fn set_client_config(
    state: &mut State,
    sender: &String,
    acl_allows: bool,
    client_address: &String,
    config: ClientConfig,
) -> (r: Result<(), ContractError>)
    requires
        old(state)@.wf(),
    ensures
        match set_client_config_spec(old(state)@, sender@, acl_allows, client_address@, config) {
            Err(e) => r == Err::<(), ContractError>(e) && final(state)@ == old(state)@,
            Ok(s) => r is Ok && final(state)@ == s,
        },
        final(state)@.wf(),
{
    ensure_sender_is_allowed(state.owner(), sender, acl_allows)?;
    match state.find_client(client_address) {
        Some(i) => {
            state.set_client_config(i, config);
            Ok(())
        },
        None => Err(ContractError::ClientNotFound),
    }
}

} // verus!
