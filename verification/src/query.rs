//! What the pool tells about itself without changing.
use vstd::prelude::*;

use crate::error::ContractError;
use crate::limiter::is_rate_limited_spec;
use crate::models::BankAccount;
use crate::models::BlockInfo;
use crate::models::Client;
use crate::models::RateLimitConfig;
use crate::models::StakeAccount;
use crate::models::TaxRecipient;
use crate::msg::AccountView;
use crate::msg::CanSpendResponse;
use crate::msg::ClientResponse;
use crate::msg::ClientView;
use crate::msg::Metadata;
use crate::msg::Totals;
use crate::order::is_above;
use crate::order::law_rising_page;
use crate::order::precedes;
use crate::order::rising;
use crate::order::rising_from;
use crate::order::views;
use crate::state::StakeEntry;
use crate::state::State;
use crate::state::sync_account_readonly;
use crate::table::Keyed;
use crate::table::addresses_of;
use crate::table::value_of;
use crate::transition::account_of;
use crate::transition::sync_account_spec;
use crate::utils::PCT_SCALE;
use crate::utils::checked_multiply_ratio;
use crate::utils::clone_client;
use crate::utils::clone_text;
use crate::view::Staker;
use crate::view::StateView;
use crate::view::staker_addresses;

verus! {

/// Tells whether a payment of `additional_amount` out to `address` would be
/// refused in this block.
pub fn is_rate_limited(
    state: &State,
    block: &BlockInfo,
    config: &RateLimitConfig,
    address: &String,
    additional_amount: Option<u128>,
) -> (r: bool)
    ensures
        r == is_rate_limited_spec(
            value_of(state@.usage, address@),
            *block,
            *config,
            match additional_amount {
                Some(amount) => amount,
                None => 0,
            },
        ),
{
    match state.usage(address) {
        Some(usage) => {
            let now = block.time.seconds();
            let start = usage.start_time.seconds();
            let dt = if now >= start {
                now - start
            } else {
                0
            };
            if block.height == usage.prev_height {
                true
            } else if dt >= config.interval_seconds {
                false
            } else {
                let net = if usage.spent > usage.added {
                    usage.spent - usage.added
                } else {
                    0
                };
                let additional = match additional_amount {
                    Some(amount) => amount,
                    None => 0,
                };
                match checked_multiply_ratio(usage.start_liquidity, config.max_pct_change, PCT_SCALE) {
                    Ok(thresh) => match net.checked_add(additional) {
                        Some(total) => total >= thresh,
                        None => true,
                    },
                    // A share beyond 128 bits cannot be reached.
                    Err(_) => false,
                }
            }
        },
        None => false,
    }
}

/// Tells whether `spender` can have `amount` paid out through the client:
/// neither the client nor, where it is another address, the spender may be
/// rate limited. Both are held to the limit that the pool sets for
/// accounts.
pub fn can_spend(
    state: &State,
    block: &BlockInfo,
    client_address: &String,
    spender: &String,
    amount: Option<u128>,
) -> (r: CanSpendResponse)
    ensures
        r.can_spend == !({
            let owed = match amount {
                Some(a) => a,
                None => 0,
            };
            ||| is_rate_limited_spec(
                value_of(state@.usage, client_address@),
                *block,
                state@.config.account_rate_limit,
                owed,
            )
            ||| (spender@ != client_address@ && is_rate_limited_spec(
                value_of(state@.usage, spender@),
                *block,
                state@.config.account_rate_limit,
                owed,
            ))
        }),
{
    let config = state.config();
    let amount = match amount {
        Some(a) => a,
        None => 0,
    };
    let is_client_rate_limited = is_rate_limited(
        state,
        block,
        &config.account_rate_limit,
        client_address,
        Some(amount),
    );
    let is_account_rate_limited = if *spender != *client_address {
        is_rate_limited(state, block, &config.account_rate_limit, spender, Some(amount))
    } else {
        false
    };
    CanSpendResponse { can_spend: !(is_account_rate_limited || is_client_rate_limited) }
}

/// The account as a reader is shown it: brought up to date where it is not
/// unbonding.
pub open spec fn shown(s: StateView, account: StakeAccount) -> Result<StakeAccount, ContractError> {
    if account.is_active() {
        match sync_account_spec(s, account, true) {
            Err(e) => Err(e),
            Ok((_, a)) => Ok(a),
        }
    } else {
        Ok(account)
    }
}

/// The accounts at the places of `order`, each as a reader is shown it; the
/// first that cannot be brought up to date decides the error.
pub open spec fn shown_all(s: StateView, order: Seq<int>) -> Result<Seq<Staker>, ContractError>
    decreases order.len(),
{
    if order.len() == 0 {
        Ok(Seq::empty())
    } else {
        match shown_all(s, order.drop_last()) {
            Err(e) => Err(e),
            Ok(front) => match shown(s, s.accounts[order.last()].account) {
                Err(e) => Err(e),
                Ok(account) => Ok(
                    front.push(Staker { address: s.accounts[order.last()].address, account }),
                ),
            },
        }
    }
}

/// The number of accounts on a page: what is asked for, or twenty.
pub open spec fn page_size(limit: Option<u8>) -> nat {
    match limit {
        Some(n) => n as nat,
        None => 20,
    }
}

/// The view of a cursor.
pub open spec fn cursor_of(cursor: Option<String>) -> Option<Seq<char>> {
    match cursor {
        Some(c) => Some(c@),
        None => None,
    }
}

/// A page of the stake accounts: in rising order of address, the first
/// accounts whose address comes after the cursor, as many as the page
/// holds, each as a reader is shown it.
pub open spec fn page(s: StateView, cursor: Option<String>, limit: Option<u8>) -> Result<
    Seq<Staker>,
    ContractError,
> {
    shown_all(
        s,
        rising_from(staker_addresses(s.accounts), cursor_of(cursor), page_size(limit)),
    )
}

/// A page that can be shown holds one account for each place, under the
/// address of that place.
pub proof fn lemma_shown_all(s: StateView, order: Seq<int>)
    requires
        shown_all(s, order) is Ok,
    ensures
        shown_all(s, order)->Ok_0.len() == order.len(),
        forall|k: int|
            0 <= k < order.len() ==> {
                &&& (#[trigger] shown_all(s, order)->Ok_0[k]).address
                    == s.accounts[order[k]].address
                &&& Ok::<StakeAccount, ContractError>(shown_all(s, order)->Ok_0[k].account)
                    == shown(s, s.accounts[order[k]].account)
            },
    decreases order.len(),
{
    if order.len() > 0 {
        lemma_shown_all(s, order.drop_last());
        assert forall|k: int| 0 <= k < order.len() implies {
            &&& (#[trigger] shown_all(s, order)->Ok_0[k]).address == s.accounts[order[k]].address
            &&& Ok::<StakeAccount, ContractError>(shown_all(s, order)->Ok_0[k].account) == shown(
                s,
                s.accounts[order[k]].account,
            )
        } by {
            if k < order.len() - 1 {
                assert(order.drop_last()[k] == order[k]);
            }
        }
    }
}

/// A page of the stake accounts is what a store keyed by address hands
/// out: no more accounts than the page holds; each an account of the pool,
/// brought up to date, under an address that comes after the cursor; the
/// addresses in strictly rising order; and no account after the cursor left
/// out, unless the page is full and the account comes after its last.
#[verifier::rlimit(80)]
pub proof fn law_accounts_page(s: StateView, cursor: Option<String>, limit: Option<u8>)
    requires
        page(s, cursor, limit) is Ok,
    ensures
        ({
            let stakers = page(s, cursor, limit)->Ok_0;
            &&& stakers.len() <= page_size(limit)
            &&& forall|k: int|
                0 <= k < stakers.len() ==> is_above(cursor_of(cursor), (#[trigger] stakers[k]).address)
                    && exists|i: int|
                    0 <= i < s.accounts.len() && (#[trigger] s.accounts[i]).address
                        == stakers[k].address && Ok::<StakeAccount, ContractError>(
                        stakers[k].account,
                    ) == shown(s, s.accounts[i].account)
            &&& forall|a: int, b: int|
                0 <= a < b < stakers.len() ==> precedes(
                    (#[trigger] stakers[a]).address,
                    (#[trigger] stakers[b]).address,
                )
            &&& forall|j: int|
                0 <= j < s.accounts.len() && is_above(
                    cursor_of(cursor),
                    (#[trigger] s.accounts[j]).address,
                ) ==> {
                    ||| exists|k: int|
                        0 <= k < stakers.len() && (#[trigger] stakers[k]).address
                            == s.accounts[j].address
                    ||| stakers.len() == page_size(limit) && page_size(limit) > 0 && precedes(
                        stakers.last().address,
                        s.accounts[j].address,
                    )
                    ||| page_size(limit) == 0
                }
        }),
{
    let addresses = staker_addresses(s.accounts);
    let order = rising_from(addresses, cursor_of(cursor), page_size(limit));
    let stakers = page(s, cursor, limit)->Ok_0;
    law_rising_page(addresses, cursor_of(cursor), page_size(limit));
    lemma_shown_all(s, order);
    assert forall|k: int| 0 <= k < stakers.len() implies is_above(
        cursor_of(cursor),
        (#[trigger] stakers[k]).address,
    ) && exists|i: int|
        0 <= i < s.accounts.len() && (#[trigger] s.accounts[i]).address == stakers[k].address
            && Ok::<StakeAccount, ContractError>(stakers[k].account) == shown(
            s,
            s.accounts[i].account,
        ) by {
        assert(addresses[order[k]] == s.accounts[order[k]].address);
        assert(s.accounts[order[k]].address == stakers[k].address);
    }
    assert forall|a: int, b: int| 0 <= a < b < stakers.len() implies precedes(
        (#[trigger] stakers[a]).address,
        (#[trigger] stakers[b]).address,
    ) by {
        assert(addresses[order[a]] == stakers[a].address);
        assert(addresses[order[b]] == stakers[b].address);
    }
    assert forall|j: int|
        0 <= j < s.accounts.len() && is_above(
            cursor_of(cursor),
            (#[trigger] s.accounts[j]).address,
        ) implies {
        ||| exists|k: int|
            0 <= k < stakers.len() && (#[trigger] stakers[k]).address == s.accounts[j].address
        ||| stakers.len() == page_size(limit) && page_size(limit) > 0 && precedes(
            stakers.last().address,
            s.accounts[j].address,
        )
        ||| page_size(limit) == 0
    } by {
        assert(addresses[j] == s.accounts[j].address);
        assert(is_above(cursor_of(cursor), addresses[j]));
        if exists|k: int| 0 <= k < order.len() && addresses[#[trigger] order[k]] == addresses[j] {
            let k = choose|k: int|
                0 <= k < order.len() && addresses[#[trigger] order[k]] == addresses[j];
            assert(stakers[k].address == s.accounts[j].address);
        } else if page_size(limit) > 0 {
            assert(order.len() == page_size(limit));
            assert(addresses[order.last()] == stakers.last().address);
        }
    }
}

/// A page that fails after some accounts fails as a whole.
pub proof fn lemma_page_fails(s: StateView, order: Seq<int>, k: int)
    requires
        0 <= k <= order.len(),
        shown_all(s, order.take(k)) is Err,
    ensures
        shown_all(s, order) == shown_all(s, order.take(k)),
    decreases order.len() - k,
{
    if k < order.len() {
        assert(order.take(k + 1).drop_last() =~= order.take(k));
        lemma_page_fails(s, order, k + 1);
    } else {
        assert(order.take(k) =~= order);
    }
}

/// A page of the stake accounts in rising order of address, strictly after
/// the cursor, each brought up to date on the way out; the state is left
/// as it is.
pub fn accounts(state: &State, maybe_cursor: &Option<String>, maybe_limit: Option<u8>) -> (r: Result<
    Vec<StakeEntry>,
    ContractError,
>)
    ensures
        match page(state@, *maybe_cursor, maybe_limit) {
            Err(e) => r == Err::<Vec<StakeEntry>, ContractError>(e),
            Ok(stakers) => {
                &&& r is Ok
                &&& r->Ok_0@.len() == stakers.len()
                &&& forall|k: int| 0 <= k < stakers.len() ==> (#[trigger] r->Ok_0@[k])@ == stakers[k]
            },
        },
{
    let limit: usize = match maybe_limit {
        Some(n) => n as usize,
        None => 20,
    };
    let addresses = state.stake_addresses();
    assert(views(addresses@).len() == staker_addresses(state@.accounts).len());
    let order = rising(
        &addresses,
        match maybe_cursor {
            Some(c) => Some(c),
            None => None,
        },
        limit,
    );
    let ghost places = rising_from(
        staker_addresses(state@.accounts),
        cursor_of(*maybe_cursor),
        page_size(maybe_limit),
    );
    assert(places.len() == order@.len());
    let mut found: Vec<StakeEntry> = Vec::new();
    let mut k: usize = 0;
    assert(places.take(0) =~= Seq::empty());
    while k < order.len()
        invariant
            k <= order@.len() == places.len(),
            addresses@.len() == state@.accounts.len(),
            places == rising_from(
                staker_addresses(state@.accounts),
                cursor_of(*maybe_cursor),
                page_size(maybe_limit),
            ),
            forall|j: int|
                0 <= j < order@.len() ==> (#[trigger] order@[j]) < state@.accounts.len()
                    && order@[j] == places[j],
            shown_all(state@, places.take(k as int)) is Ok,
            shown_all(state@, places.take(k as int))->Ok_0.len() == k,
            found@.len() == k,
            forall|j: int|
                0 <= j < k ==> (#[trigger] found@[j])@ == shown_all(
                    state@,
                    places.take(k as int),
                )->Ok_0[j],
        decreases order@.len() - k,
    {
        let i = order[k];
        assert(order@[k as int] == places[k as int]);
        let mut account = state.stake_account_at(i);
        proof {
            assert(places.take(k + 1).drop_last() =~= places.take(k as int));
            assert(places.take(k + 1).last() == i);
            if shown_all(state@, places.take(k + 1)) is Err {
                lemma_page_fails(state@, places, k + 1);
            }
        }
        if account.unbonding.is_none() {
            sync_account_readonly(state, &mut account, true)?;
        }
        found.push(StakeEntry { address: state.stake_address_at(i).clone(), account });
        k += 1;
    }
    assert(places.take(k as int) =~= places);
    Ok(found)
}

/// The places of a table in rising order of address.
pub open spec fn rising_places<T>(table: Seq<Keyed<T>>) -> Seq<int> {
    rising_from(addresses_of(table), None, table.len())
}

/// The clients in rising order of address, each with its address and the
/// number of its jobs.
pub fn clients(state: &State) -> (r: Vec<ClientView>)
    ensures
        r@.len() == rising_places(state@.clients).len(),
        forall|k: int|
            0 <= k < r@.len() ==> {
                let i = rising_places(state@.clients)[k];
                let client = state@.clients[i].value;
                &&& 0 <= i < state@.clients.len()
                &&& (#[trigger] r@[k]).address@ == state@.clients[i].address
                &&& r@[k].config == client.config
                &&& r@[k].connected_at == client.connected_at
                &&& r@[k].is_suspended == client.is_suspended
                &&& r@[k].revenue == client.revenue
                &&& r@[k].expense == client.expense
                &&& r@[k].executions == match value_of(
                    state@.client_execution_counts,
                    state@.clients[i].address,
                ) {
                    Some(n) => n,
                    None => 0,
                }
            },
{
    let addresses = state.client_addresses();
    assert(views(addresses@).len() == addresses_of(state@.clients).len());
    let order = rising(&addresses, None, addresses.len());
    let mut found: Vec<ClientView> = Vec::new();
    let mut k: usize = 0;
    while k < order.len()
        invariant
            k <= order@.len() == rising_places(state@.clients).len(),
            addresses@.len() == state@.clients.len(),
            forall|j: int|
                0 <= j < order@.len() ==> (#[trigger] order@[j]) < state@.clients.len()
                    && order@[j] == rising_places(state@.clients)[j],
            found@.len() == k,
            forall|j: int|
                0 <= j < k ==> {
                    let i = rising_places(state@.clients)[j];
                    let client = state@.clients[i].value;
                    &&& 0 <= i < state@.clients.len()
                    &&& (#[trigger] found@[j]).address@ == state@.clients[i].address
                    &&& found@[j].config == client.config
                    &&& found@[j].connected_at == client.connected_at
                    &&& found@[j].is_suspended == client.is_suspended
                    &&& found@[j].revenue == client.revenue
                    &&& found@[j].expense == client.expense
                    &&& found@[j].executions == match value_of(
                        state@.client_execution_counts,
                        state@.clients[i].address,
                    ) {
                        Some(n) => n,
                        None => 0,
                    }
                },
        decreases order@.len() - k,
    {
        let i = order[k];
        let address = state.client_address_at(i);
        found.push(ClientView::new(state.client_at(i), address, state.client_execution_count(address)));
        k += 1;
    }
    found
}

/// The tax recipients in rising order of address, each with its address.
pub fn tax_recipients(state: &State) -> (r: Vec<TaxRecipient>)
    ensures
        r@.len() == rising_places(state@.tax_recipients).len(),
        forall|k: int|
            0 <= k < r@.len() ==> {
                let i = rising_places(state@.tax_recipients)[k];
                let kept = state@.tax_recipients[i].value;
                &&& 0 <= i < state@.tax_recipients.len()
                &&& (#[trigger] r@[k]).address is Some
                &&& r@[k].address->Some_0@ == state@.tax_recipients[i].address
                &&& r@[k].pct == kept.pct
                &&& r@[k].name == kept.name
                &&& r@[k].description == kept.description
                &&& r@[k].url == kept.url
            },
{
    let addresses = state.tax_recipient_addresses();
    assert(views(addresses@).len() == addresses_of(state@.tax_recipients).len());
    let order = rising(&addresses, None, addresses.len());
    let mut found: Vec<TaxRecipient> = Vec::new();
    let mut k: usize = 0;
    while k < order.len()
        invariant
            k <= order@.len() == rising_places(state@.tax_recipients).len(),
            addresses@.len() == state@.tax_recipients.len(),
            forall|j: int|
                0 <= j < order@.len() ==> (#[trigger] order@[j]) < state@.tax_recipients.len()
                    && order@[j] == rising_places(state@.tax_recipients)[j],
            found@.len() == k,
            forall|j: int|
                0 <= j < k ==> {
                    let i = rising_places(state@.tax_recipients)[j];
                    let kept = state@.tax_recipients[i].value;
                    &&& 0 <= i < state@.tax_recipients.len()
                    &&& (#[trigger] found@[j]).address is Some
                    &&& found@[j].address->Some_0@ == state@.tax_recipients[i].address
                    &&& found@[j].pct == kept.pct
                    &&& found@[j].name == kept.name
                    &&& found@[j].description == kept.description
                    &&& found@[j].url == kept.url
                },
        decreases order@.len() - k,
    {
        let i = order[k];
        let kept = state.tax_recipient_at(i);
        found.push(
            TaxRecipient {
                address: Some(state.tax_recipient_address_at(i).clone()),
                pct: kept.pct,
                name: clone_text(&kept.name),
                description: clone_text(&kept.description),
                url: clone_text(&kept.url),
            },
        );
        k += 1;
    }
    found
}

/// The client under an address, with its address and the number of its
/// jobs.
pub fn query_client(state: &State, client_address: &String) -> (r: ClientResponse)
    ensures
        r.client == match value_of(state@.clients, client_address@) {
            Some(client) => Some(
                ClientView {
                    address: *client_address,
                    config: client.config,
                    connected_at: client.connected_at,
                    is_suspended: client.is_suspended,
                    revenue: client.revenue,
                    expense: client.expense,
                    executions: match value_of(state@.client_execution_counts, client_address@) {
                        Some(n) => n,
                        None => 0,
                    },
                },
            ),
            None => None,
        },
{
    let executions = state.client_execution_count(client_address);
    ClientResponse {
        client: match state.find_client(client_address) {
            Some(i) => Some(ClientView::new(state.client_at(i), client_address, executions)),
            None => None,
        },
    }
}

/// The counters of the pool.
pub fn metadata(state: &State) -> (r: Metadata)
    ensures
        r == (Metadata {
            n_accounts: state@.n_stake_accounts,
            n_unbonding: state@.n_stake_accounts_unbonding,
            n_clients: state@.n_clients,
            n_ledger_entries: state@.n_ledger_entries,
            ledger_entry_seq_no: state@.ledger_entry_seq_no,
        }),
{
    Metadata {
        n_accounts: state.n_stake_accounts(),
        n_unbonding: state.n_stake_accounts_unbonding(),
        n_clients: state.n_clients(),
        n_ledger_entries: state.n_ledger_entries(),
        ledger_entry_seq_no: state.ledger_entry_seq_no(),
    }
}

/// The revenue of the first `count` clients together.
pub open spec fn revenue_of(clients: Seq<Keyed<Client>>, count: int) -> int
    decreases count,
{
    if count <= 0 {
        0
    } else {
        revenue_of(clients, count - 1) + clients[count - 1].value.revenue
    }
}

/// The expense of the first `count` clients together.
pub open spec fn expense_of(clients: Seq<Keyed<Client>>, count: int) -> int
    decreases count,
{
    if count <= 0 {
        0
    } else {
        expense_of(clients, count - 1) + clients[count - 1].value.expense
    }
}

/// The sums only grow with the number of clients.
pub proof fn lemma_sums_grow(clients: Seq<Keyed<Client>>, fewer: int, more: int)
    requires
        0 <= fewer <= more,
    ensures
        revenue_of(clients, fewer) <= revenue_of(clients, more),
        expense_of(clients, fewer) <= expense_of(clients, more),
        0 <= revenue_of(clients, fewer),
        0 <= expense_of(clients, fewer),
    decreases more,
{
    if fewer < more {
        lemma_sums_grow(clients, fewer, more - 1);
    } else if fewer > 0 {
        lemma_sums_grow(clients, fewer - 1, fewer - 1);
    }
}

/// All that has come in, as plain revenue and through the clients, and all
/// that has gone out through the clients; `Overflow` where a sum does not
/// fit.
pub fn totals(state: &State) -> (r: Result<Totals, ContractError>)
    ensures
        ({
            let revenue = state@.total_stream_revenue + revenue_of(
                state@.clients,
                state@.clients.len() as int,
            );
            let expense = expense_of(state@.clients, state@.clients.len() as int);
            if revenue > u128::MAX || expense > u128::MAX {
                r == Err::<Totals, ContractError>(ContractError::Overflow)
            } else {
                r == Ok::<Totals, ContractError>(
                    Totals { revenue: revenue as u128, expense: expense as u128 },
                )
            }
        }),
{
    let mut revenue = state.total_stream_revenue();
    let mut expense: u128 = 0;
    let n = state.clients_len();
    let mut k: usize = 0;
    while k < n
        invariant
            k <= n == state@.clients.len(),
            revenue == state@.total_stream_revenue + revenue_of(state@.clients, k as int),
            expense == expense_of(state@.clients, k as int),
        decreases n - k,
    {
        proof {
            lemma_sums_grow(state@.clients, k + 1, n as int);
        }
        let client = state.client_at(k);
        revenue = match revenue.checked_add(client.revenue) {
            Some(v) => v,
            None => { return Err(ContractError::Overflow); },
        };
        expense = match expense.checked_add(client.expense) {
            Some(v) => v,
            None => { return Err(ContractError::Overflow); },
        };
        k += 1;
    }
    Ok(Totals { revenue, expense })
}

/// What the pool knows of an address: its stake account, brought up to
/// date where it can be, its balance, its client, and whether it is rate
/// limited as an account.
pub fn account_view(state: &State, block: &BlockInfo, wallet: &String) -> (r: AccountView)
    ensures
        r.stake == match account_of(state@.accounts, wallet@) {
            Some(account) => match shown(state@, account) {
                Ok(a) => Some(a),
                Err(_) => Some(account),
            },
            None => None,
        },
        r.bank == match value_of(state@.bank_accounts, wallet@) {
            Some(balance) => Some(BankAccount { address: None, balance }),
            None => None,
        },
        r.client == value_of(state@.clients, wallet@),
        r.is_suspended == is_rate_limited_spec(
            value_of(state@.usage, wallet@),
            *block,
            state@.config.account_rate_limit,
            0,
        ),
{
    let config = state.config();
    let is_suspended = is_rate_limited(state, block, &config.account_rate_limit, wallet, None);
    let stake = match state.stake_account(wallet) {
        Some(account) => {
            let mut synced = account;
            if account.unbonding.is_none() {
                match sync_account_readonly(state, &mut synced, true) {
                    Ok(_) => {},
                    Err(_) => {},
                }
            }
            Some(synced)
        },
        None => None,
    };
    AccountView {
        bank: match state.find_bank_account(wallet) {
            Some(i) => Some(BankAccount { address: None, balance: state.bank_balance_at(i) }),
            None => None,
        },
        stake,
        client: match state.find_client(wallet) {
            Some(i) => Some(clone_client(state.client_at(i))),
            None => None,
        },
        is_suspended,
    }
}

} // verus!
