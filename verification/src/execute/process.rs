//! One job of a client: limits first, then the money.
use vstd::prelude::*;

use crate::error::ContractError;
use crate::execute::receive::split_revenue;
use crate::limiter::throttle;
use crate::limiter::throttle_spec;
use crate::models::AccountTokenAmount;
use crate::models::BlockInfo;
use crate::models::Client;
use crate::models::HouseEvent;
use crate::models::RateLimitConfig;
use crate::models::RateLimitEvent;
use crate::models::Usage;
use crate::scheduler::Pending;
use crate::scheduler::amortize;
use crate::scheduler::amortize_commit;
use crate::scheduler::lemma_leads_to_same;
use crate::state::State;
use crate::state::upsert_ledger_entry;
use crate::table::Keyed;
use crate::table::position;
use crate::table::value_of;
use crate::table::with_value;
use crate::transition::amortize_spec;
use crate::transition::receive_core;
use crate::transition::send_core;
use crate::utils::decrement;
use crate::utils::increment;
use crate::validity::lemma_receive_core_wf;
use crate::validity::lemma_send_core_wf;
use crate::view::StateView;
use crate::view::settled;
use crate::view::with_event;

verus! {

/// What a job moves on balance.
#[derive(Debug, Clone, Copy, PartialEq, Eq, Structural)]
pub enum Flow {
    Nothing,
    /// The pool pays the amount out.
    Send(u128),
    /// The pool takes the amount in.
    Receive(u128),
}

/// The amount of a movement, which is nothing where there is no movement.
pub open spec fn amount_of(movement: Option<AccountTokenAmount>) -> u128 {
    match movement {
        Some(m) => m.amount,
        None => 0,
    }
}

/// What a job moves on balance: what goes out less what comes in is paid
/// by the pool, what comes in less what goes out is its revenue.
pub open spec fn flow_of(incoming: u128, outgoing: Option<AccountTokenAmount>) -> Flow {
    match outgoing {
        Some(out) => if out.amount > incoming {
            Flow::Send((out.amount - incoming) as u128)
        } else if out.amount < incoming {
            Flow::Receive((incoming - out.amount) as u128)
        } else {
            Flow::Nothing
        },
        None => if incoming != 0 {
            Flow::Receive(incoming)
        } else {
            Flow::Nothing
        },
    }
}

/// What is left of a budget after a payment, where there is a budget and a
/// payment.
pub open spec fn spend_budget(budget: Option<u128>, outgoing: Option<AccountTokenAmount>) -> Result<
    Option<u128>,
    ContractError,
> {
    match (budget, outgoing) {
        (Some(b), Some(out)) => if out.amount > b {
            Err(ContractError::BudgetExceeded)
        } else {
            Ok(Some((b - out.amount) as u128))
        },
        _ => Ok(budget),
    }
}

/// The payment has used the budget up.
pub open spec fn uses_up(budget: Option<u128>, outgoing: Option<AccountTokenAmount>) -> bool {
    budget is Some && outgoing is Some && budget->Some_0 == outgoing->Some_0.amount
}

/// What the rate limiter says of a job for one address whose record is
/// `usage`, and the record after the job. A job that pays nothing out is
/// not held against any limit.
pub open spec fn limit_spec(
    usage: Option<Usage>,
    block: BlockInfo,
    pool_liquidity: u128,
    incoming: u128,
    outgoing: Option<u128>,
    config: RateLimitConfig,
) -> Result<Option<(Option<RateLimitEvent>, Usage)>, ContractError> {
    match outgoing {
        None => Ok(None),
        Some(out) => match throttle_spec(usage, block, pool_liquidity, incoming, out, config) {
            Err(e) => Err(e),
            Ok(x) => Ok(Some(x)),
        },
    }
}

/// A state with the client at a position replaced.
pub open spec fn with_client(s: StateView, i: int, client: Client) -> StateView {
    StateView {
        clients: s.clients.update(i, Keyed { address: s.clients[i].address, value: client }),
        ..s
    }
}

/// The money that a job moves, once the job has passed the limits: nothing,
/// a payment out of the pool, or revenue. Money that moves ends with the
/// replay in passing. The client's books follow.
pub open spec fn settle_spec(
    s: StateView,
    i: int,
    budget: Option<u128>,
    used_up: bool,
    flow: Flow,
) -> Result<StateView, ContractError> {
    let client = s.clients[i].value;
    match flow {
        Flow::Nothing => Ok(
            with_client(s, i, settled(client, budget, used_up, client.revenue, client.expense)),
        ),
        Flow::Send(payment) => match send_core(s, payment) {
            Err(e) => Err(e),
            Ok(s1) => if client.expense + payment > u128::MAX {
                Err(ContractError::Overflow)
            } else {
                match amortize_spec(s1) {
                    Err(e) => Err(e),
                    Ok(s2) => Ok(
                        with_client(
                            s2,
                            i,
                            settled(
                                client,
                                budget,
                                used_up,
                                client.revenue,
                                (client.expense + payment) as u128,
                            ),
                        ),
                    ),
                }
            },
        },
        Flow::Receive(revenue) => match receive_core(s, revenue) {
            Err(e) => Err(e),
            Ok(s1) => if client.revenue + revenue > u128::MAX {
                Err(ContractError::Overflow)
            } else {
                match amortize_spec(s1) {
                    Err(e) => Err(e),
                    Ok(s2) => Ok(
                        with_client(
                            s2,
                            i,
                            settled(
                                client,
                                budget,
                                used_up,
                                (client.revenue + revenue) as u128,
                                client.expense,
                            ),
                        ),
                    ),
                }
            },
        },
    }
}

/// The records after a job has been noted for the client and for the
/// initiator, in that order, where the limiter has held it against them.
pub open spec fn noted_usage(
    usage: Seq<Keyed<Usage>>,
    client_address: Seq<char>,
    initiator: Seq<char>,
    of_client: Option<Usage>,
    of_initiator: Option<Usage>,
) -> Seq<Keyed<Usage>> {
    let usage1 = match of_client {
        Some(record) => with_value(usage, client_address, record),
        None => usage,
    };
    match of_initiator {
        Some(record) => with_value(usage1, initiator, record),
        None => usage1,
    }
}

/// What the rate limiter makes of a job: whether the client and whether the
/// initiator has triggered its limit, and the record of each after the job,
/// where the job was held against its limit.
pub struct Held {
    pub client_triggered: bool,
    pub initiator_triggered: bool,
    pub of_client: Option<Usage>,
    pub of_initiator: Option<Usage>,
}

/// A job before the limits of the client and, where the initiator is not
/// the client itself, of the initiator. An address that is throttled fails
/// the job with `RateLimited`.
pub open spec fn limits_spec(
    s: StateView,
    block: BlockInfo,
    client_address: Seq<char>,
    initiator: Seq<char>,
    incoming: u128,
    held: Option<u128>,
    rate_limit: RateLimitConfig,
) -> Result<Held, ContractError> {
    match limit_spec(
        value_of(s.usage, client_address),
        block,
        s.pool.liquidity,
        incoming,
        held,
        rate_limit,
    ) {
        Err(e) => Err(e),
        Ok(of_client) => if of_client is Some && of_client->Some_0.0 == Some(
            RateLimitEvent::Throttled,
        ) {
            Err(ContractError::RateLimited)
        } else {
            match limit_spec(
                value_of(s.usage, initiator),
                block,
                s.pool.liquidity,
                incoming,
                if initiator != client_address {
                    held
                } else {
                    None
                },
                s.config.account_rate_limit,
            ) {
                Err(e) => Err(e),
                Ok(of_initiator) => if of_initiator is Some && of_initiator->Some_0.0 == Some(
                    RateLimitEvent::Throttled,
                ) {
                    Err(ContractError::RateLimited)
                } else {
                    Ok(
                        Held {
                            client_triggered: of_client is Some && of_client->Some_0.0 is Some,
                            initiator_triggered: of_initiator is Some
                                && of_initiator->Some_0.0 is Some,
                            of_client: match of_client {
                                Some((_, record)) => Some(record),
                                None => None,
                            },
                            of_initiator: match of_initiator {
                                Some((_, record)) => Some(record),
                                None => None,
                            },
                        },
                    )
                },
            }
        },
    }
}

/// The state after a job has triggered a limit: the job is noted in the
/// records and in the events, a client that has triggered its own limit is
/// suspended, and no money moves.
pub open spec fn triggered_spec(
    s: StateView,
    i: int,
    block: BlockInfo,
    client_address: String,
    initiator: String,
    held: Held,
) -> StateView {
    let client = s.clients[i].value;
    let events1 = if held.client_triggered {
        with_event(
            s.events,
            HouseEvent::ClientRateLimitTriggered { block, initiator, client: client_address },
        )
    } else {
        s.events
    };
    let events2 = if held.initiator_triggered {
        with_event(
            events1,
            HouseEvent::AccountRateLimitTriggered { block, client: client_address, initiator },
        )
    } else {
        events1
    };
    with_client(
        StateView {
            usage: noted_usage(
                s.usage,
                client_address@,
                initiator@,
                held.of_client,
                held.of_initiator,
            ),
            events: events2,
            ..s
        },
        i,
        settled(
            client,
            client.config.budget,
            held.client_triggered,
            client.revenue,
            client.expense,
        ),
    )
}

/// One job of a client: the state after it, and whether the rate limiter
/// was triggered, in which case no money has moved.
///
/// A suspended client is refused. A job that moves nothing only turns the
/// queue. A payment may not exceed the client's budget and is taken from
/// it. A client without a budget is rate limited, and so is the initiator
/// where it is not the client itself: an address that is throttled fails
/// the job with `RateLimited`; one that triggers its limit is noted in the
/// events, and a client that does so is suspended. Otherwise the money
/// moves, and a client that has used its budget up is suspended.
pub open spec fn process_spec(
    s: StateView,
    block: BlockInfo,
    client_address: String,
    initiator: String,
    incoming: Option<AccountTokenAmount>,
    outgoing: Option<AccountTokenAmount>,
) -> Result<(StateView, bool), ContractError> {
    match position(s.clients, client_address@) {
        None => Err(ContractError::ClientNotFound),
        Some(i) => {
            let client = s.clients[i].value;
            if client.is_suspended {
                Err(ContractError::ClientSuspended)
            } else if incoming is None && outgoing is None {
                match amortize_spec(s) {
                    Err(e) => Err(e),
                    Ok(s1) => Ok((s1, false)),
                }
            } else {
                match spend_budget(client.config.budget, outgoing) {
                    Err(e) => Err(e),
                    Ok(budget) => match limits_spec(
                        s,
                        block,
                        client_address@,
                        initiator@,
                        amount_of(incoming),
                        if budget is None && outgoing is Some {
                            Some(amount_of(outgoing))
                        } else {
                            None
                        },
                        client.config.rate_limit,
                    ) {
                        Err(e) => Err(e),
                        Ok(held) => if held.client_triggered || held.initiator_triggered {
                            Ok(
                                (
                                    triggered_spec(s, i, block, client_address, initiator, held),
                                    true,
                                ),
                            )
                        } else {
                            match settle_spec(
                                StateView {
                                    usage: noted_usage(
                                        s.usage,
                                        client_address@,
                                        initiator@,
                                        held.of_client,
                                        held.of_initiator,
                                    ),
                                    ..s
                                },
                                i,
                                budget,
                                uses_up(client.config.budget, outgoing),
                                flow_of(amount_of(incoming), outgoing),
                            ) {
                                Err(e) => Err(e),
                                Ok(s1) => Ok((s1, false)),
                            }
                        },
                    },
                }
            }
        },
    }
}

/// Refuses a client that is suspended.
pub fn ensure_client_not_rate_limited(client: &Client) -> (r: Result<(), ContractError>)
    ensures
        client.is_suspended ==> r == Err::<(), ContractError>(ContractError::ClientSuspended),
        !client.is_suspended ==> r is Ok,
{
    if client.is_suspended {
        Err(ContractError::ClientSuspended)
    } else {
        Ok(())
    }
}

/// Holds a job against the limit of one address without recording
/// anything yet.
fn limit(
    usage: Option<Usage>,
    block: &BlockInfo,
    pool_liquidity: u128,
    incoming: u128,
    outgoing: Option<u128>,
    config: &RateLimitConfig,
) -> (r: Result<Option<(Option<RateLimitEvent>, Usage)>, ContractError>)
    ensures
        r == limit_spec(usage, *block, pool_liquidity, incoming, outgoing, *config),
{
    match outgoing {
        // There is no limit to hold against where nothing goes out.
        None => Ok(None),
        Some(out) => {
            let x = throttle(usage, block, pool_liquidity, incoming, out, config)?;
            Ok(Some(x))
        },
    }
}

/// Holds a job against the limits of the client and of the initiator
/// without recording anything yet.
fn limits(
    state: &State,
    block: &BlockInfo,
    client_address: &String,
    initiator: &String,
    incoming: u128,
    held: Option<u128>,
    rate_limit: &RateLimitConfig,
) -> (r: Result<Held, ContractError>)
    ensures
        r == limits_spec(
            state@,
            *block,
            client_address@,
            initiator@,
            incoming,
            held,
            *rate_limit,
        ),
{
    let pool_liquidity = state.pool().liquidity;
    let of_client = limit(
        state.usage(client_address),
        block,
        pool_liquidity,
        incoming,
        held,
        rate_limit,
    )?;
    match of_client {
        Some((Some(RateLimitEvent::Throttled), _)) => { return Err(ContractError::RateLimited); },
        _ => {},
    }
    // The initiator has a limit of its own unless it is the client itself.
    let same = *initiator == *client_address;
    let account_rate_limit = state.config().account_rate_limit;
    let of_initiator = limit(
        state.usage(initiator),
        block,
        pool_liquidity,
        incoming,
        if same {
            None
        } else {
            held
        },
        &account_rate_limit,
    )?;
    match of_initiator {
        Some((Some(RateLimitEvent::Throttled), _)) => { return Err(ContractError::RateLimited); },
        _ => {},
    }
    Ok(
        Held {
            client_triggered: match of_client {
                Some((Some(_), _)) => true,
                _ => false,
            },
            initiator_triggered: match of_initiator {
                Some((Some(_), _)) => true,
                _ => false,
            },
            of_client: match of_client {
                Some((_, record)) => Some(record),
                None => None,
            },
            of_initiator: match of_initiator {
                Some((_, record)) => Some(record),
                None => None,
            },
        },
    )
}

/// Writes the records of a job.
fn note(state: &mut State, client_address: &String, initiator: &String, held: &Held)
    ensures
        final(state)@ == (StateView {
            usage: noted_usage(
                old(state)@.usage,
                client_address@,
                initiator@,
                held.of_client,
                held.of_initiator,
            ),
            ..old(state)@
        }),
{
    match held.of_client {
        Some(record) => {
            state.put_usage(client_address, record);
        },
        None => {},
    }
    match held.of_initiator {
        Some(record) => {
            state.put_usage(initiator, record);
        },
        None => {},
    }
}

/// Notes a job that has triggered a limit.
fn trigger(
    state: &mut State,
    i: usize,
    block: &BlockInfo,
    client_address: &String,
    initiator: &String,
    held: &Held,
)
    requires
        i < old(state)@.clients.len(),
    ensures
        final(state)@ == triggered_spec(
            old(state)@,
            i as int,
            *block,
            *client_address,
            *initiator,
            *held,
        ),
{
    let budget = state.client_at(i).config.budget;
    let revenue = state.client_at(i).revenue;
    let expense = state.client_at(i).expense;
    note(state, client_address, initiator, held);
    if held.client_triggered {
        state.push_event(
            HouseEvent::ClientRateLimitTriggered {
                block: *block,
                initiator: initiator.clone(),
                client: client_address.clone(),
            },
        );
    }
    if held.initiator_triggered {
        state.push_event(
            HouseEvent::AccountRateLimitTriggered {
                block: *block,
                client: client_address.clone(),
                initiator: initiator.clone(),
            },
        );
    }
    // A client that triggers its own limit is suspended at once.
    state.settle_client(i, budget, held.client_triggered, revenue, expense);
}

/// Pays `payment` out of the pool for a client, once the job has passed
/// the limits.
#[verifier::rlimit(40)]
fn send(
    state: &mut State,
    i: usize,
    budget: Option<u128>,
    used_up: bool,
    payment: u128,
    client_address: &String,
    initiator: &String,
    held: &Held,
) -> (r: Result<(), ContractError>)
    requires
        old(state)@.wf(),
        i < old(state)@.clients.len(),
    ensures
        match settle_spec(
            StateView {
                usage: noted_usage(
                    old(state)@.usage,
                    client_address@,
                    initiator@,
                    held.of_client,
                    held.of_initiator,
                ),
                ..old(state)@
            },
            i as int,
            budget,
            used_up,
            Flow::Send(payment),
        ) {
            Err(e) => r == Err::<(), ContractError>(e) && final(state)@ == old(state)@,
            Ok(s) => r is Ok && final(state)@ == s,
        },
        final(state)@.wf(),
{
    let ghost noted = StateView {
        usage: noted_usage(
            state@.usage,
            client_address@,
            initiator@,
            held.of_client,
            held.of_initiator,
        ),
        ..state@
    };
    if payment == 0 {
        return Err(ContractError::InsufficientAmount);
    }
    let seq_no = state.plan_upsert(0, 0, payment)?;
    let liquidity = decrement(state.pool().liquidity, payment)?;
    let expense = increment(state.client_at(i).expense, payment)?;
    let revenue = state.client_at(i).revenue;
    let ghost core = send_core(noted, payment)->Ok_0;
    proof {
        lemma_send_core_wf(noted, payment);
        lemma_leads_to_same(state@, core);
    }
    let pending = Pending { touched: None, pushed: false, seq_no };
    state.check_amortize(&pending, Ghost(core))?;

    note(state, client_address, initiator, held);
    let written = upsert_ledger_entry(state, 0, 0, payment);
    assert(written is Ok);
    let delegation = state.pool().delegation;
    let dividends = state.pool().dividends;
    let taxes = state.pool().taxes;
    state.set_pool_totals(delegation, liquidity, dividends, taxes);
    assert(state@ == core);
    amortize_commit(state);
    // The client's books follow the pool's.
    state.settle_client(i, budget, used_up, revenue, expense);
    Ok(())
}

/// Takes `revenue` into the pool for a client, once the job has passed the
/// limits.
#[verifier::rlimit(40)]
fn receive(
    state: &mut State,
    i: usize,
    budget: Option<u128>,
    used_up: bool,
    revenue: u128,
    client_address: &String,
    initiator: &String,
    held: &Held,
) -> (r: Result<(), ContractError>)
    requires
        old(state)@.wf(),
        i < old(state)@.clients.len(),
    ensures
        match settle_spec(
            StateView {
                usage: noted_usage(
                    old(state)@.usage,
                    client_address@,
                    initiator@,
                    held.of_client,
                    held.of_initiator,
                ),
                ..old(state)@
            },
            i as int,
            budget,
            used_up,
            Flow::Receive(revenue),
        ) {
            Err(e) => r == Err::<(), ContractError>(e) && final(state)@ == old(state)@,
            Ok(s) => r is Ok && final(state)@ == s,
        },
        final(state)@.wf(),
{
    let ghost noted = StateView {
        usage: noted_usage(
            state@.usage,
            client_address@,
            initiator@,
            held.of_client,
            held.of_initiator,
        ),
        ..state@
    };
    if revenue == 0 {
        return Err(ContractError::InsufficientAmount);
    }
    let (tax, delta_revenue, delta_dividends) = split_revenue(state, revenue);
    let seq_no = state.plan_upsert(delta_revenue, delta_dividends, 0)?;
    let liquidity = increment(state.pool().liquidity, delta_revenue)?;
    let dividends = increment(state.pool().dividends, delta_dividends)?;
    let taxes = increment(state.pool().taxes, tax)?;
    let earned = increment(state.client_at(i).revenue, revenue)?;
    let expense = state.client_at(i).expense;
    let ghost core = receive_core(noted, revenue)->Ok_0;
    proof {
        lemma_receive_core_wf(noted, revenue);
        lemma_leads_to_same(state@, core);
    }
    let pending = Pending { touched: None, pushed: false, seq_no };
    state.check_amortize(&pending, Ghost(core))?;

    note(state, client_address, initiator, held);
    let written = upsert_ledger_entry(state, delta_revenue, delta_dividends, 0);
    assert(written is Ok);
    let delegation = state.pool().delegation;
    state.set_pool_totals(delegation, liquidity, dividends, taxes);
    assert(state@ == core);
    amortize_commit(state);
    // The client's books follow the pool's.
    state.settle_client(i, budget, used_up, earned, expense);
    Ok(())
}

/// Processes one job of a client: `incoming` comes into the pool and
/// `outgoing` leaves it, on behalf of `initiator`. Tells whether the rate
/// limiter was triggered, in which case no money has moved and what came
/// in is to be refunded.
pub fn process(
    state: &mut State,
    block: &BlockInfo,
    client_address: &String,
    initiator: &String,
    incoming: &Option<AccountTokenAmount>,
    outgoing: &Option<AccountTokenAmount>,
) -> (r: Result<bool, ContractError>)
    requires
        old(state)@.wf(),
    ensures
        match process_spec(
            old(state)@,
            *block,
            *client_address,
            *initiator,
            *incoming,
            *outgoing,
        ) {
            Err(e) => r == Err::<bool, ContractError>(e) && final(state)@ == old(state)@,
            Ok((s, triggered)) => r == Ok::<bool, ContractError>(triggered) && final(state)@
                == s,
        },
        final(state)@.wf(),
{
    let i = match state.find_client(client_address) {
        Some(i) => i,
        None => { return Err(ContractError::ClientNotFound); },
    };
    ensure_client_not_rate_limited(state.client_at(i))?;

    // Nothing comes in and nothing goes out: only the queue is turned.
    if incoming.is_none() && outgoing.is_none() {
        amortize(state)?;
        return Ok(false);
    }
    let incoming_amount = match incoming {
        Some(m) => m.amount,
        None => 0,
    };
    let old_budget = state.client_at(i).config.budget;
    let rate_limit = state.client_at(i).config.rate_limit;

    // A payment may not exceed the budget. A client that uses its budget up
    // is suspended at the end.
    let mut budget = old_budget;
    let mut suspend_after_use = false;
    match (old_budget, outgoing) {
        (Some(b), Some(out)) => {
            if out.amount > b {
                return Err(ContractError::BudgetExceeded);
            }
            budget = Some(b - out.amount);
            suspend_after_use = b - out.amount == 0;
        },
        _ => {},
    }

    // Rate limiting applies where the client has no budget.
    let held_amount = match (budget, outgoing) {
        (None, Some(out)) => Some(out.amount),
        _ => None,
    };
    let held = limits(
        state,
        block,
        client_address,
        initiator,
        incoming_amount,
        held_amount,
        &rate_limit,
    )?;
    if held.client_triggered || held.initiator_triggered {
        trigger(state, i, block, client_address, initiator, &held);
        return Ok(true);
    }
    // Take revenue or make the payment, whichever the job comes to.
    match outgoing {
        Some(out) => {
            if out.amount > incoming_amount {
                send(
                    state,
                    i,
                    budget,
                    suspend_after_use,
                    out.amount - incoming_amount,
                    client_address,
                    initiator,
                    &held,
                )?;
                return Ok(false);
            } else if out.amount < incoming_amount {
                receive(
                    state,
                    i,
                    budget,
                    suspend_after_use,
                    incoming_amount - out.amount,
                    client_address,
                    initiator,
                    &held,
                )?;
                return Ok(false);
            }
        },
        None => {
            if incoming_amount != 0 {
                receive(
                    state,
                    i,
                    budget,
                    suspend_after_use,
                    incoming_amount,
                    client_address,
                    initiator,
                    &held,
                )?;
                return Ok(false);
            }
        },
    }
    let revenue = state.client_at(i).revenue;
    let expense = state.client_at(i).expense;
    note(state, client_address, initiator, &held);
    state.settle_client(i, budget, suspend_after_use, revenue, expense);
    Ok(false)
}

} // verus!
