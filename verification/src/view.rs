//! The state of the pool as mathematical values, and what makes it valid.
use vstd::prelude::*;

use crate::models::Client;
use crate::models::ClientConfig;
use crate::models::Config;
use crate::models::HouseEvent;
use crate::models::LedgerEntry;
use crate::models::Owner;
use crate::models::Pool;
use crate::models::RevenueStream;
use crate::models::StakeAccount;
use crate::models::TaxRecipient;
use crate::models::Token;
use crate::models::Usage;
use crate::table::Keyed;
use crate::utils::PCT_SCALE;

verus! {

/// A stake account under the address that owns it.
pub struct Staker {
    pub address: Seq<char>,
    pub account: StakeAccount,
}

/// What the state of the pool holds, as mathematical values.
pub struct StateView {
    pub owner: Owner,
    pub pool: Pool,
    pub config: Config,
    /// The stake accounts, in the order in which they were opened.
    pub accounts: Seq<Staker>,
    /// The ledger entries that some account has yet to replay, by sequence
    /// number.
    pub ledger: Map<u128, LedgerEntry>,
    /// The sequence number that the next ledger entry will get.
    pub ledger_entry_seq_no: u128,
    pub n_ledger_entries: u32,
    pub n_stake_accounts: u32,
    pub n_stake_accounts_unbonding: u32,
    /// The coalescing tag: the number of stake changes so far.
    pub n_delegation_mutations: u128,
    /// The addresses that wait for a replay in passing, the next one first.
    pub memoization_queue: Seq<Seq<char>>,
    /// What each address has moved within its current window.
    pub usage: Seq<Keyed<Usage>>,
    pub clients: Seq<Keyed<Client>>,
    pub n_clients: u32,
    /// What the rate limiter has noticed, the latest first.
    pub events: Seq<HouseEvent>,
    /// What has come in as plain revenue, by the address it came from.
    pub streams: Seq<Keyed<RevenueStream>>,
    /// All that has come in as plain revenue.
    pub total_stream_revenue: u128,
    /// The number of jobs that each client has had processed.
    pub client_execution_counts: Seq<Keyed<u64>>,
    /// The balances that addresses keep with the pool.
    pub bank_accounts: Seq<Keyed<u128>>,
    /// Who gets which part of the taxes, in the order in which they are
    /// paid.
    pub tax_recipients: Seq<Keyed<TaxRecipient>>,
}

/// The number of events that are kept.
pub const MAX_EVENT_QUEUE_SIZE: usize = 100;

/// The events with one more in front, cut to the number that is kept.
pub open spec fn with_event(events: Seq<HouseEvent>, event: HouseEvent) -> Seq<HouseEvent> {
    let longer = seq![event] + events;
    if longer.len() > MAX_EVENT_QUEUE_SIZE {
        longer.take(MAX_EVENT_QUEUE_SIZE as int)
    } else {
        longer
    }
}

/// A client with what an operation changes of it set.
pub open spec fn settled(
    client: Client,
    budget: Option<u128>,
    is_suspended: bool,
    revenue: u128,
    expense: u128,
) -> Client {
    Client {
        config: ClientConfig { budget, ..client.config },
        is_suspended,
        revenue,
        expense,
        ..client
    }
}

/// The addresses of the accounts, in their order.
pub open spec fn staker_addresses(accounts: Seq<Staker>) -> Seq<Seq<char>> {
    Seq::new(accounts.len(), |i: int| accounts[i].address)
}

/// The position of the first account under `address`, if there is one.
pub open spec fn lookup(accounts: Seq<Staker>, address: Seq<char>) -> Option<int>
    decreases accounts.len(),
{
    if accounts.len() == 0 {
        None
    } else {
        match lookup(accounts.drop_last(), address) {
            Some(i) => Some(i),
            None => if accounts.last().address == address {
                Some(accounts.len() - 1)
            } else {
                None
            },
        }
    }
}

/// The sum of `weight` over the accounts.
pub open spec fn total(accounts: Seq<Staker>, weight: spec_fn(StakeAccount) -> int) -> int
    decreases accounts.len(),
{
    if accounts.len() == 0 {
        0
    } else {
        total(accounts.drop_last(), weight) + weight(accounts.last().account)
    }
}

/// Counts the accounts that are not unbonding.
pub open spec fn active_weight() -> spec_fn(StakeAccount) -> int {
    |a: StakeAccount|
        if a.is_active() {
            1int
        } else {
            0int
        }
}

/// Counts the accounts that are unbonding.
pub open spec fn unbonding_weight() -> spec_fn(StakeAccount) -> int {
    |a: StakeAccount|
        if a.is_active() {
            0int
        } else {
            1int
        }
}

/// What an account that is not unbonding has staked.
pub open spec fn delegation_weight() -> spec_fn(StakeAccount) -> int {
    |a: StakeAccount|
        if a.is_active() {
            a.delegation as int
        } else {
            0int
        }
}

/// The liquidity that an account that is not unbonding holds.
pub open spec fn liquidity_weight() -> spec_fn(StakeAccount) -> int {
    |a: StakeAccount|
        if a.is_active() {
            a.liquidity as int
        } else {
            0int
        }
}

/// The dividends that an account that is not unbonding holds.
pub open spec fn dividends_weight() -> spec_fn(StakeAccount) -> int {
    |a: StakeAccount|
        if a.is_active() {
            a.dividends as int
        } else {
            0int
        }
}

/// Counts the accounts that are not unbonding and have yet to replay the
/// entry `i`.
pub open spec fn behind_weight(i: u128) -> spec_fn(StakeAccount) -> int {
    |a: StakeAccount|
        if a.is_active() && a.seq_no <= i {
            1int
        } else {
            0int
        }
}

/// The number of accounts that are not unbonding and have yet to replay the
/// entry `i`.
pub open spec fn behind(accounts: Seq<Staker>, i: u128) -> int {
    total(accounts, behind_weight(i))
}

impl StateView {
    /// The state of a pool that has just been set up.
    pub open spec fn empty(owner: Owner, token: Token, config: Config) -> StateView {
        StateView {
            owner,
            pool: Pool { token, delegation: 0, liquidity: 0, dividends: 0, taxes: 0 },
            config,
            accounts: Seq::empty(),
            ledger: Map::empty(),
            ledger_entry_seq_no: 0,
            n_ledger_entries: 0,
            n_stake_accounts: 0,
            n_stake_accounts_unbonding: 0,
            n_delegation_mutations: 0,
            memoization_queue: Seq::empty(),
            usage: Seq::empty(),
            clients: Seq::empty(),
            n_clients: 0,
            events: Seq::empty(),
            streams: Seq::empty(),
            total_stream_revenue: 0,
            client_execution_counts: Seq::empty(),
            bank_accounts: Seq::empty(),
            tax_recipients: Seq::empty(),
        }
    }

    /// The latest entry can still take in further changes: it is in the
    /// ledger and no stake has changed since it was made.
    pub open spec fn latest_is_open(self) -> bool {
        &&& self.ledger_entry_seq_no > 0
        &&& self.ledger.dom().contains((self.ledger_entry_seq_no - 1) as u128)
        &&& self.ledger[(self.ledger_entry_seq_no - 1) as u128].tag == self.n_delegation_mutations
    }

    /// The accounts agree with the counters and the pool: no address has two
    /// accounts; the counters count what they name; the pool's delegation is
    /// what the accounts that are not unbonding have staked; no account is
    /// ahead of the ledger; no rate is above the whole; and the clients are
    /// counted.
    pub open spec fn wf_accounts(self) -> bool {
        &&& forall|i: int, j: int|
            0 <= i < j < self.accounts.len() ==> self.accounts[i].address
                != self.accounts[j].address
        &&& self.n_stake_accounts == self.accounts.len()
        &&& self.n_stake_accounts_unbonding == total(self.accounts, unbonding_weight())
        &&& self.pool.delegation == total(self.accounts, delegation_weight())
        &&& forall|k: int|
            0 <= k < self.accounts.len() ==> (#[trigger] self.accounts[k]).account.seq_no
                <= self.ledger_entry_seq_no
        &&& self.config.tax_rate <= PCT_SCALE
        &&& self.config.restake_rate <= PCT_SCALE
        &&& self.n_clients == self.clients.len()
        &&& forall|k: int|
            0 <= k < self.tax_recipients.len() ==> (#[trigger] self.tax_recipients[k]).value.pct
                <= PCT_SCALE
    }

    /// The ledger agrees with the accounts: the count of an entry is the
    /// number of accounts that are not unbonding and have yet to replay it,
    /// and an entry that such an account has yet to replay is in the ledger.
    pub open spec fn wf_ledger(self) -> bool {
        &&& self.ledger.dom().finite()
        &&& self.n_ledger_entries == self.ledger.dom().len()
        &&& forall|i: u128| #[trigger]
            self.ledger.dom().contains(i) ==> {
                &&& i < self.ledger_entry_seq_no
                &&& self.ledger[i].ref_count == behind(self.accounts, i)
                &&& self.ledger[i].tag <= self.n_delegation_mutations
            }
        &&& forall|i: u128|
            i < self.ledger_entry_seq_no && #[trigger] behind(self.accounts, i) >= 1
                ==> self.ledger.dom().contains(i)
    }

    /// While the latest entry can still grow, no account that is not
    /// unbonding has replayed it.
    pub open spec fn wf_open(self) -> bool {
        self.latest_is_open() ==> forall|k: int|
            0 <= k < self.accounts.len() && (#[trigger] self.accounts[k]).account.is_active()
                ==> self.accounts[k].account.seq_no < self.ledger_entry_seq_no
    }

    /// Every account that is not unbonding waits in the queue for its replay
    /// in passing.
    pub open spec fn wf_queue(self) -> bool {
        forall|k: int|
            0 <= k < self.accounts.len() && (#[trigger] self.accounts[k]).account.is_active()
                ==> self.memoization_queue.contains(self.accounts[k].address)
    }

    /// The validity of a state. Every operation of the library keeps it.
    pub open spec fn wf(self) -> bool {
        &&& self.wf_accounts()
        &&& self.wf_ledger()
        &&& self.wf_open()
        &&& self.wf_queue()
    }
}

/// What `lookup` finds is the first account under the address, and it finds
/// one wherever there is one.
pub proof fn lemma_lookup(accounts: Seq<Staker>, address: Seq<char>)
    ensures
        match lookup(accounts, address) {
            Some(i) => {
                &&& 0 <= i < accounts.len()
                &&& accounts[i].address == address
                &&& forall|j: int| 0 <= j < i ==> accounts[j].address != address
            },
            None => forall|j: int| 0 <= j < accounts.len() ==> accounts[j].address != address,
        },
    decreases accounts.len(),
{
    if accounts.len() > 0 {
        let front = accounts.drop_last();
        lemma_lookup(front, address);
        assert(forall|j: int| 0 <= j < front.len() ==> front[j] == accounts[j]);
        match lookup(front, address) {
            Some(i) => {
                assert(front[i] == accounts[i]);
            },
            None => {
                assert forall|j: int| 0 <= j < accounts.len() - 1 implies accounts[j].address
                    != address by {
                    assert(front[j] == accounts[j]);
                }
            },
        }
    }
}

/// The first account under an address is what `lookup` finds.
pub proof fn lemma_lookup_is(accounts: Seq<Staker>, address: Seq<char>, i: int)
    requires
        0 <= i < accounts.len(),
        accounts[i].address == address,
        forall|j: int| 0 <= j < i ==> accounts[j].address != address,
    ensures
        lookup(accounts, address) == Some(i),
{
    lemma_lookup(accounts, address);
}

/// Where no address has two accounts, an account is found under its own
/// address.
pub proof fn lemma_lookup_distinct(accounts: Seq<Staker>, i: int)
    requires
        0 <= i < accounts.len(),
        forall|a: int, b: int| 0 <= a < b < accounts.len() ==> accounts[a].address != accounts[b].address,
    ensures
        lookup(accounts, accounts[i].address) == Some(i),
{
    lemma_lookup(accounts, accounts[i].address);
}

pub proof fn lemma_total_push(accounts: Seq<Staker>, weight: spec_fn(StakeAccount) -> int, s: Staker)
    ensures
        total(accounts.push(s), weight) == total(accounts, weight) + weight(s.account),
{
    assert(accounts.push(s).drop_last() =~= accounts);
}

pub proof fn lemma_total_update(
    accounts: Seq<Staker>,
    weight: spec_fn(StakeAccount) -> int,
    i: int,
    s: Staker,
)
    requires
        0 <= i < accounts.len(),
    ensures
        total(accounts.update(i, s), weight) == total(accounts, weight) - weight(
            accounts[i].account,
        ) + weight(s.account),
    decreases accounts.len(),
{
    if i == accounts.len() - 1 {
        assert(accounts.update(i, s).drop_last() =~= accounts.drop_last());
    } else {
        assert(accounts.update(i, s).drop_last() =~= accounts.drop_last().update(i, s));
        lemma_total_update(accounts.drop_last(), weight, i, s);
    }
}

pub proof fn lemma_total_remove(accounts: Seq<Staker>, weight: spec_fn(StakeAccount) -> int, i: int)
    requires
        0 <= i < accounts.len(),
    ensures
        total(accounts.remove(i), weight) == total(accounts, weight) - weight(accounts[i].account),
    decreases accounts.len(),
{
    if i == accounts.len() - 1 {
        assert(accounts.remove(i) =~= accounts.drop_last());
    } else {
        assert(accounts.remove(i).drop_last() =~= accounts.drop_last().remove(i));
        assert(accounts.remove(i).last() == accounts.last());
        lemma_total_remove(accounts.drop_last(), weight, i);
    }
}

/// A sum of weights that are not negative is not negative, and no smaller
/// than any one of them.
pub proof fn lemma_total_bounds(accounts: Seq<Staker>, weight: spec_fn(StakeAccount) -> int)
    requires
        forall|a: StakeAccount| #[trigger] weight(a) >= 0,
    ensures
        total(accounts, weight) >= 0,
        forall|i: int| 0 <= i < accounts.len() ==> total(accounts, weight) >= weight(#[trigger] accounts[i].account),
    decreases accounts.len(),
{
    if accounts.len() > 0 {
        lemma_total_bounds(accounts.drop_last(), weight);
        assert forall|i: int| 0 <= i < accounts.len() implies total(accounts, weight) >= weight(
            #[trigger] accounts[i].account,
        ) by {
            if i < accounts.len() - 1 {
                assert(accounts.drop_last()[i] == accounts[i]);
            }
        }
    }
}

/// A sum over weights that agree on every account is the same sum.
pub proof fn lemma_total_same(
    accounts: Seq<Staker>,
    w1: spec_fn(StakeAccount) -> int,
    w2: spec_fn(StakeAccount) -> int,
)
    requires
        forall|i: int| 0 <= i < accounts.len() ==> w1(#[trigger] accounts[i].account) == w2(accounts[i].account),
    ensures
        total(accounts, w1) == total(accounts, w2),
    decreases accounts.len(),
{
    if accounts.len() > 0 {
        assert forall|i: int| 0 <= i < accounts.drop_last().len() implies w1(
            #[trigger] accounts.drop_last()[i].account,
        ) == w2(accounts.drop_last()[i].account) by {
            assert(accounts.drop_last()[i] == accounts[i]);
        }
        lemma_total_same(accounts.drop_last(), w1, w2);
    }
}

/// The accounts either are unbonding or are not.
pub proof fn lemma_active_and_unbonding(accounts: Seq<Staker>)
    ensures
        total(accounts, active_weight()) + total(accounts, unbonding_weight()) == accounts.len(),
        total(accounts, active_weight()) >= 0,
        total(accounts, unbonding_weight()) >= 0,
    decreases accounts.len(),
{
    if accounts.len() > 0 {
        lemma_active_and_unbonding(accounts.drop_last());
    }
}

} // verus!
