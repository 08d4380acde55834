//! The state of the pool and the steps that read and write it.
use std::collections::HashMap;
use std::collections::VecDeque;
use vstd::prelude::*;
use vstd::std_specs::hash::*;
use vstd::std_specs::iter::IteratorSpec;

use crate::error::ContractError;
use crate::execute::taxes::insert_tax_recipients;
use crate::execute::taxes::with_recipients;
use crate::ledger::apply_entry;
use crate::ledger::lemma_replay_entries;
use crate::ledger::release;
use crate::ledger::replay;
use crate::ledger::sync_target;
use crate::ledger::updated;
use crate::ledger::zombies;
use crate::models::BankAccount;
use crate::models::Client;
use crate::models::ClientConfig;
use crate::models::Config;
use crate::models::HouseEvent;
use crate::models::LedgerEntry;
use crate::models::LedgerUpdates;
use crate::models::Owner;
use crate::models::Pool;
use crate::models::RevenueStream;
use crate::models::StakeAccount;
use crate::models::TaxRecipient;
use crate::models::Timestamp;
use crate::models::Token;
use crate::models::Usage;
use crate::order::views;
use crate::table::Keyed;
use crate::table::Table;
use crate::table::addresses_of;
use crate::table::lemma_position;
use crate::table::position;
use crate::table::value_of;
use crate::table::with_value;
use crate::transition::account_of;
use crate::transition::sync_account_spec;
use crate::transition::upsert_spec;
use crate::utils::PCT_SCALE;
use crate::utils::clone_client;
use crate::utils::increment;
use crate::validation::is_valid;
use crate::validity::lemma_active_count;
use crate::validity::lemma_upsert_wf;
use crate::view::MAX_EVENT_QUEUE_SIZE;
use crate::view::Staker;
use crate::view::StateView;
use crate::view::lemma_lookup;
use crate::view::lemma_lookup_is;
use crate::view::lookup;
use crate::view::settled;
use crate::view::staker_addresses;
use crate::view::with_event;

verus! {

broadcast use vstd::std_specs::hash::group_hash_axioms;

/// A stake account together with the address that owns it.
pub struct StakeEntry {
    pub address: String,
    pub account: StakeAccount,
}

impl View for StakeEntry {
    type V = Staker;

    open spec fn view(&self) -> Staker {
        Staker { address: self.address@, account: self.account }
    }
}

/// Everything the pool keeps between operations.
pub struct State {
    owner: Owner,
    pool: Pool,
    config: Config,
    accounts: Vec<StakeEntry>,
    ledger: HashMap<u128, LedgerEntry>,
    ledger_entry_seq_no: u128,
    n_ledger_entries: u32,
    n_stake_accounts: u32,
    n_stake_accounts_unbonding: u32,
    n_delegation_mutations: u128,
    memoization_queue: VecDeque<String>,
    usage: Table<Usage>,
    clients: Table<Client>,
    n_clients: u32,
    events: VecDeque<HouseEvent>,
    streams: Table<RevenueStream>,
    total_stream_revenue: u128,
    client_execution_counts: Table<u64>,
    bank_accounts: Table<u128>,
    tax_recipients: Table<TaxRecipient>,
}

/// Everything the pool keeps between operations, laid open: what is read
/// from and written to wherever the state is kept.
pub struct Parts {
    pub owner: Owner,
    pub pool: Pool,
    pub config: Config,
    pub stake_accounts: Vec<StakeEntry>,
    pub ledger: HashMap<u128, LedgerEntry>,
    pub ledger_entry_seq_no: u128,
    pub n_ledger_entries: u32,
    pub n_stake_accounts: u32,
    pub n_stake_accounts_unbonding: u32,
    pub n_delegation_mutations: u128,
    pub memoization_queue: VecDeque<String>,
    pub usage: Table<Usage>,
    pub clients: Table<Client>,
    pub n_clients: u32,
    pub events: VecDeque<HouseEvent>,
    pub streams: Table<RevenueStream>,
    pub total_stream_revenue: u128,
    pub client_execution_counts: Table<u64>,
    pub bank_accounts: Table<u128>,
    pub tax_recipients: Table<TaxRecipient>,
}

impl View for Parts {
    type V = StateView;

    open spec fn view(&self) -> StateView {
        StateView {
            owner: self.owner,
            pool: self.pool,
            config: self.config,
            accounts: Seq::new(self.stake_accounts@.len(), |i: int| self.stake_accounts@[i]@),
            ledger: self.ledger@,
            ledger_entry_seq_no: self.ledger_entry_seq_no,
            n_ledger_entries: self.n_ledger_entries,
            n_stake_accounts: self.n_stake_accounts,
            n_stake_accounts_unbonding: self.n_stake_accounts_unbonding,
            n_delegation_mutations: self.n_delegation_mutations,
            memoization_queue: Seq::new(
                self.memoization_queue@.len(),
                |i: int| self.memoization_queue@[i]@,
            ),
            usage: self.usage@,
            clients: self.clients@,
            n_clients: self.n_clients,
            events: self.events@,
            streams: self.streams@,
            total_stream_revenue: self.total_stream_revenue,
            client_execution_counts: self.client_execution_counts@,
            bank_accounts: self.bank_accounts@,
            tax_recipients: self.tax_recipients@,
        }
    }
}

impl View for State {
    type V = StateView;

    closed spec fn view(&self) -> StateView {
        StateView {
            owner: self.owner,
            pool: self.pool,
            config: self.config,
            accounts: Seq::new(self.accounts@.len(), |i: int| self.accounts@[i]@),
            ledger: self.ledger@,
            ledger_entry_seq_no: self.ledger_entry_seq_no,
            n_ledger_entries: self.n_ledger_entries,
            n_stake_accounts: self.n_stake_accounts,
            n_stake_accounts_unbonding: self.n_stake_accounts_unbonding,
            n_delegation_mutations: self.n_delegation_mutations,
            memoization_queue: Seq::new(
                self.memoization_queue@.len(),
                |i: int| self.memoization_queue@[i]@,
            ),
            usage: self.usage@,
            clients: self.clients@,
            n_clients: self.n_clients,
            events: self.events@,
            streams: self.streams@,
            total_stream_revenue: self.total_stream_revenue,
            client_execution_counts: self.client_execution_counts@,
            bank_accounts: self.bank_accounts@,
            tax_recipients: self.tax_recipients@,
        }
    }
}

impl State {
    /// The state that is made of the parts, if they make a valid one;
    /// `InvariantViolation` if they do not.
    pub fn from_parts(parts: Parts) -> (r: Result<State, ContractError>)
        ensures
            match r {
                Ok(state) => state@ == parts@ && parts@.wf(),
                Err(e) => e == ContractError::InvariantViolation && !parts@.wf(),
            },
    {
        let state = State {
            owner: parts.owner,
            pool: parts.pool,
            config: parts.config,
            accounts: parts.stake_accounts,
            ledger: parts.ledger,
            ledger_entry_seq_no: parts.ledger_entry_seq_no,
            n_ledger_entries: parts.n_ledger_entries,
            n_stake_accounts: parts.n_stake_accounts,
            n_stake_accounts_unbonding: parts.n_stake_accounts_unbonding,
            n_delegation_mutations: parts.n_delegation_mutations,
            memoization_queue: parts.memoization_queue,
            usage: parts.usage,
            clients: parts.clients,
            n_clients: parts.n_clients,
            events: parts.events,
            streams: parts.streams,
            total_stream_revenue: parts.total_stream_revenue,
            client_execution_counts: parts.client_execution_counts,
            bank_accounts: parts.bank_accounts,
            tax_recipients: parts.tax_recipients,
        };
        assert(state@ == parts@);
        if is_valid(&state) {
            Ok(state)
        } else {
            Err(ContractError::InvariantViolation)
        }
    }

    /// The parts of the state.
    pub fn into_parts(self) -> (r: Parts)
        ensures
            r@ == self@,
    {
        Parts {
            owner: self.owner,
            pool: self.pool,
            config: self.config,
            stake_accounts: self.accounts,
            ledger: self.ledger,
            ledger_entry_seq_no: self.ledger_entry_seq_no,
            n_ledger_entries: self.n_ledger_entries,
            n_stake_accounts: self.n_stake_accounts,
            n_stake_accounts_unbonding: self.n_stake_accounts_unbonding,
            n_delegation_mutations: self.n_delegation_mutations,
            memoization_queue: self.memoization_queue,
            usage: self.usage,
            clients: self.clients,
            n_clients: self.n_clients,
            events: self.events,
            streams: self.streams,
            total_stream_revenue: self.total_stream_revenue,
            client_execution_counts: self.client_execution_counts,
            bank_accounts: self.bank_accounts,
            tax_recipients: self.tax_recipients,
        }
    }

    /// A pool with no stake, no history and nobody waiting.
    pub fn new(owner: Owner, token: Token, config: Config) -> (r: Result<State, ContractError>)
        ensures
            match r {
                Ok(state) => {
                    &&& config.tax_rate <= PCT_SCALE
                    &&& config.restake_rate <= PCT_SCALE
                    &&& state@ == StateView::empty(owner, token, config)
                    &&& state@.wf()
                },
                Err(e) => {
                    &&& e == ContractError::ValidationError
                    &&& (config.tax_rate > PCT_SCALE || config.restake_rate > PCT_SCALE)
                },
            },
    {
        if config.tax_rate > PCT_SCALE || config.restake_rate > PCT_SCALE {
            return Err(ContractError::ValidationError);
        }
        let r = State {
            owner,
            pool: Pool::new(&token),
            config,
            accounts: Vec::new(),
            ledger: HashMap::new(),
            ledger_entry_seq_no: 0,
            n_ledger_entries: 0,
            n_stake_accounts: 0,
            n_stake_accounts_unbonding: 0,
            n_delegation_mutations: 0,
            memoization_queue: VecDeque::new(),
            usage: Table::new(),
            clients: Table::new(),
            n_clients: 0,
            events: VecDeque::new(),
            streams: Table::new(),
            total_stream_revenue: 0,
            client_execution_counts: Table::new(),
            bank_accounts: Table::new(),
            tax_recipients: Table::new(),
        };
        assert(r@.accounts =~= Seq::empty());
        assert(r@.memoization_queue =~= Seq::empty());
        assert(r@.ledger =~= Map::empty());
        Ok(r)
    }

    pub fn owner(&self) -> (r: &Owner)
        ensures
            *r == self@.owner,
    {
        &self.owner
    }

    pub(crate) fn set_owner(&mut self, owner: Owner)
        ensures
            final(self)@ == (StateView { owner, ..old(self)@ }),
    {
        self.owner = owner;
    }

    pub(crate) fn set_config(&mut self, config: Config)
        ensures
            final(self)@ == (StateView { config, ..old(self)@ }),
    {
        self.config = config;
    }

    /// Writes the settings of the client at a position.
    pub(crate) fn set_client_config(&mut self, i: usize, config: ClientConfig)
        requires
            i < old(self)@.clients.len(),
        ensures
            final(self)@ == (StateView {
                clients: old(self)@.clients.update(
                    i as int,
                    Keyed {
                        address: old(self)@.clients[i as int].address,
                        value: Client { config, ..old(self)@.clients[i as int].value },
                    },
                ),
                ..old(self)@
            }),
    {
        let client = self.clients.get_mut(i);
        client.config = config;
    }

    pub fn pool(&self) -> (r: &Pool)
        ensures
            *r == self@.pool,
    {
        &self.pool
    }

    pub fn config(&self) -> (r: Config)
        ensures
            r == self@.config,
    {
        self.config
    }

    pub fn ledger_entry_seq_no(&self) -> (r: u128)
        ensures
            r == self@.ledger_entry_seq_no,
    {
        self.ledger_entry_seq_no
    }

    pub fn n_ledger_entries(&self) -> (r: u32)
        ensures
            r == self@.n_ledger_entries,
    {
        self.n_ledger_entries
    }

    pub fn n_stake_accounts(&self) -> (r: u32)
        ensures
            r == self@.n_stake_accounts,
    {
        self.n_stake_accounts
    }

    pub fn n_stake_accounts_unbonding(&self) -> (r: u32)
        ensures
            r == self@.n_stake_accounts_unbonding,
    {
        self.n_stake_accounts_unbonding
    }

    pub fn n_delegation_mutations(&self) -> (r: u128)
        ensures
            r == self@.n_delegation_mutations,
    {
        self.n_delegation_mutations
    }

    /// The ledger entry with a sequence number, while some account has yet
    /// to replay it.
    pub fn ledger_entry(&self, seq_no: u128) -> (r: Option<LedgerEntry>)
        ensures
            r == if self@.ledger.dom().contains(seq_no) {
                Some(self@.ledger[seq_no])
            } else {
                None
            },
    {
        match self.ledger.get(&seq_no) {
            Some(e) => Some(*e),
            None => None,
        }
    }

    /// The sequence numbers of the ledger entries, in no particular order.
    pub fn ledger_keys(&self) -> (r: Vec<u128>)
        ensures
            r@.no_duplicates(),
            r@.to_set() == self@.ledger.dom(),
            r@.len() == self@.ledger.dom().len(),
    {
        let mut found: Vec<u128> = Vec::new();
        let keys = self.ledger.keys();
        let ghost all = keys.remaining();
        proof {
            axiom_spec_keys_iter(&self.ledger);
        }
        for key in it: keys
            invariant
                it.seq() == all,
                found@ == all.take(it.index() as int).unref(),
        {
            found.push(*key);
            assert(found@ =~= all.take(it.index() + 1).unref());
        }
        assert(found@ =~= all.unref());
        found
    }

    /// The account under an address as it is kept, which is as it was when
    /// it last replayed the ledger.
    pub fn stake_account(&self, address: &String) -> (r: Option<StakeAccount>)
        ensures
            r == match lookup(self@.accounts, address@) {
                Some(i) => Some(self@.accounts[i].account),
                None => None,
            },
    {
        proof {
            lemma_lookup(self@.accounts, address@);
        }
        match self.find_stake_account(address) {
            Some(i) => Some(self.stake_account_at(i)),
            None => None,
        }
    }

    /// The number of addresses that wait for a replay in passing.
    pub fn memoization_queue_len(&self) -> (r: usize)
        ensures
            r == self@.memoization_queue.len(),
    {
        self.memoization_queue.len()
    }

    /// The address at a position of the queue.
    pub fn memoization_queue_at(&self, k: usize) -> (r: &String)
        requires
            k < self@.memoization_queue.len(),
        ensures
            r@ == self@.memoization_queue[k as int],
    {
        &self.memoization_queue[k]
    }

    pub fn n_clients(&self) -> (r: u32)
        ensures
            r == self@.n_clients,
    {
        self.n_clients
    }

    pub fn total_stream_revenue(&self) -> (r: u128)
        ensures
            r == self@.total_stream_revenue,
    {
        self.total_stream_revenue
    }

    /// The position of the balance that an address keeps with the pool.
    pub fn find_bank_account(&self, address: &String) -> (r: Option<usize>)
        ensures
            match r {
                Some(i) => position(self@.bank_accounts, address@) == Some(i as int) && i
                    < self@.bank_accounts.len(),
                None => position(self@.bank_accounts, address@) is None,
            },
    {
        self.bank_accounts.find(address)
    }

    /// The balance at a position.
    pub fn bank_balance_at(&self, i: usize) -> (r: u128)
        requires
            i < self@.bank_accounts.len(),
        ensures
            r == self@.bank_accounts[i as int].value,
    {
        *self.bank_accounts.get(i)
    }

    pub(crate) fn set_bank_balance(&mut self, i: usize, balance: u128)
        requires
            i < old(self)@.bank_accounts.len(),
        ensures
            final(self)@ == (StateView {
                bank_accounts: old(self)@.bank_accounts.update(
                    i as int,
                    Keyed { address: old(self)@.bank_accounts[i as int].address, value: balance },
                ),
                ..old(self)@
            }),
    {
        self.bank_accounts.set(i, balance);
    }

    /// The number of tax recipients.
    pub fn tax_recipients_len(&self) -> (r: usize)
        ensures
            r == self@.tax_recipients.len(),
    {
        self.tax_recipients.len()
    }

    /// The tax recipient at a position.
    pub fn tax_recipient_at(&self, i: usize) -> (r: &TaxRecipient)
        requires
            i < self@.tax_recipients.len(),
        ensures
            *r == self@.tax_recipients[i as int].value,
    {
        self.tax_recipients.get(i)
    }

    /// The address of the tax recipient at a position.
    pub fn tax_recipient_address_at(&self, i: usize) -> (r: &String)
        requires
            i < self@.tax_recipients.len(),
        ensures
            r@ == self@.tax_recipients[i as int].address,
    {
        self.tax_recipients.address_at(i)
    }

    pub(crate) fn set_tax_recipients(&mut self, recipients: Table<TaxRecipient>)
        ensures
            final(self)@ == (StateView { tax_recipients: recipients@, ..old(self)@ }),
    {
        self.tax_recipients = recipients;
    }

    /// The number of jobs that a client has had processed.
    pub fn client_execution_count(&self, address: &String) -> (r: u64)
        ensures
            r == match value_of(self@.client_execution_counts, address@) {
                Some(n) => n,
                None => 0,
            },
    {
        match self.client_execution_counts.find(address) {
            Some(i) => *self.client_execution_counts.get(i),
            None => 0,
        }
    }

    pub(crate) fn put_client_execution_count(&mut self, address: &String, count: u64)
        ensures
            final(self)@ == (StateView {
                client_execution_counts: with_value(
                    old(self)@.client_execution_counts,
                    address@,
                    count,
                ),
                ..old(self)@
            }),
    {
        self.client_execution_counts.put(address, count);
    }

    /// What an address has moved within its current window.
    pub fn usage(&self, address: &String) -> (r: Option<Usage>)
        ensures
            r == value_of(self@.usage, address@),
    {
        match self.usage.find(address) {
            Some(i) => Some(*self.usage.get(i)),
            None => None,
        }
    }

    /// The position of the client under an address.
    pub fn find_client(&self, address: &String) -> (r: Option<usize>)
        ensures
            match r {
                Some(i) => position(self@.clients, address@) == Some(i as int) && i
                    < self@.clients.len(),
                None => position(self@.clients, address@) is None,
            },
    {
        self.clients.find(address)
    }

    /// The address of the client at a position.
    pub fn client_address_at(&self, i: usize) -> (r: &String)
        requires
            i < self@.clients.len(),
        ensures
            r@ == self@.clients[i as int].address,
    {
        self.clients.address_at(i)
    }

    /// The client at a position.
    pub fn client_at(&self, i: usize) -> (r: &Client)
        requires
            i < self@.clients.len(),
        ensures
            *r == self@.clients[i as int].value,
    {
        self.clients.get(i)
    }

    /// The number of events kept.
    pub fn events_len(&self) -> (r: usize)
        ensures
            r == self@.events.len(),
    {
        self.events.len()
    }

    /// The event at a position, the latest first.
    pub fn event_at(&self, k: usize) -> (r: &HouseEvent)
        requires
            k < self@.events.len(),
        ensures
            *r == self@.events[k as int],
    {
        &self.events[k]
    }

    pub(crate) fn put_usage(&mut self, address: &String, usage: Usage)
        ensures
            final(self)@ == (StateView {
                usage: with_value(old(self)@.usage, address@, usage),
                ..old(self)@
            }),
    {
        self.usage.put(address, usage);
    }

    /// Writes what an operation changes of a client.
    pub(crate) fn settle_client(
        &mut self,
        i: usize,
        budget: Option<u128>,
        is_suspended: bool,
        revenue: u128,
        expense: u128,
    )
        requires
            i < old(self)@.clients.len(),
        ensures
            final(self)@ == (StateView {
                clients: old(self)@.clients.update(
                    i as int,
                    Keyed {
                        address: old(self)@.clients[i as int].address,
                        value: settled(
                            old(self)@.clients[i as int].value,
                            budget,
                            is_suspended,
                            revenue,
                            expense,
                        ),
                    },
                ),
                ..old(self)@
            }),
    {
        let client = self.clients.get_mut(i);
        client.config.budget = budget;
        client.is_suspended = is_suspended;
        client.revenue = revenue;
        client.expense = expense;
    }

    pub(crate) fn push_client(&mut self, address: String, client: Client)
        ensures
            final(self)@ == (StateView {
                clients: old(self)@.clients.push(Keyed { address: address@, value: client }),
                ..old(self)@
            }),
    {
        self.clients.push(address, client);
    }

    pub(crate) fn remove_client(&mut self, i: usize)
        requires
            i < old(self)@.clients.len(),
        ensures
            final(self)@ == (StateView {
                clients: old(self)@.clients.remove(i as int),
                ..old(self)@
            }),
    {
        self.clients.remove(i);
    }

    pub(crate) fn set_n_clients(&mut self, n: u32)
        ensures
            final(self)@ == (StateView { n_clients: n, ..old(self)@ }),
    {
        self.n_clients = n;
    }

    /// What has come in as plain revenue from an address.
    pub fn stream(&self, address: &String) -> (r: Option<&RevenueStream>)
        ensures
            match r {
                Some(stream) => value_of(self@.streams, address@) == Some(*stream),
                None => value_of(self@.streams, address@) is None,
            },
    {
        match self.streams.find(address) {
            Some(i) => Some(self.streams.get(i)),
            None => None,
        }
    }

    /// The number of addresses that plain revenue has come from.
    pub fn streams_len(&self) -> (r: usize)
        ensures
            r == self@.streams.len(),
    {
        self.streams.len()
    }

    /// The stream at a position.
    pub fn stream_at(&self, i: usize) -> (r: &RevenueStream)
        requires
            i < self@.streams.len(),
        ensures
            *r == self@.streams[i as int].value,
    {
        self.streams.get(i)
    }

    /// Writes the counts of the stream of an address, which is opened at
    /// `now` where the address has none.
    pub(crate) fn note_stream(
        &mut self,
        address: &String,
        now: Timestamp,
        execution_count: u64,
        revenue: u128,
    )
        ensures
            final(self)@ == (StateView {
                streams: with_value(
                    old(self)@.streams,
                    address@,
                    RevenueStream {
                        execution_count,
                        revenue,
                        ..match value_of(old(self)@.streams, address@) {
                            Some(stream) => stream,
                            None => RevenueStream {
                                created_at: now,
                                name: None,
                                execution_count: 0,
                                revenue: 0,
                            },
                        }
                    },
                ),
                ..old(self)@
            }),
    {
        proof {
            lemma_position(self@.streams, address@);
        }
        match self.streams.find(address) {
            Some(i) => {
                let stream = self.streams.get_mut(i);
                stream.execution_count = execution_count;
                stream.revenue = revenue;
            },
            None => {
                self.streams.push(
                    address.clone(),
                    RevenueStream { created_at: now, name: None, execution_count, revenue },
                );
            },
        }
    }

    pub(crate) fn set_total_stream_revenue(&mut self, total: u128)
        ensures
            final(self)@ == (StateView { total_stream_revenue: total, ..old(self)@ }),
    {
        self.total_stream_revenue = total;
    }

    /// Puts an event in front of the others and drops the oldest ones
    /// beyond what is kept.
    pub(crate) fn push_event(&mut self, event: HouseEvent)
        ensures
            final(self)@ == (StateView {
                events: with_event(old(self)@.events, event),
                ..old(self)@
            }),
    {
        self.events.push_front(event);
        let ghost longer = seq![event] + old(self)@.events;
        assert(self.events@ =~= longer.take(longer.len() as int));
        while self.events.len() > MAX_EVENT_QUEUE_SIZE
            invariant
                self.events@.len() <= longer.len(),
                self.events@.len() >= MAX_EVENT_QUEUE_SIZE || self.events@.len() == longer.len(),
                self.events@ == longer.take(self.events@.len() as int),
                self@ == (StateView { events: self.events@, ..old(self)@ }),
            decreases self.events@.len(),
        {
            self.events.pop_back();
            assert(self.events@ =~= longer.take(self.events@.len() as int));
        }
        assert(self.events@ =~= with_event(old(self)@.events, event));
    }

    pub(crate) fn set_pool_totals(
        &mut self,
        delegation: u128,
        liquidity: u128,
        dividends: u128,
        taxes: u128,
    )
        ensures
            final(self)@ == (StateView {
                pool: Pool { delegation, liquidity, dividends, taxes, ..old(self)@.pool },
                ..old(self)@
            }),
    {
        self.pool.delegation = delegation;
        self.pool.liquidity = liquidity;
        self.pool.dividends = dividends;
        self.pool.taxes = taxes;
    }

    pub(crate) fn set_ledger_entry_seq_no(&mut self, seq_no: u128)
        ensures
            final(self)@ == (StateView { ledger_entry_seq_no: seq_no, ..old(self)@ }),
    {
        self.ledger_entry_seq_no = seq_no;
    }

    pub(crate) fn set_n_ledger_entries(&mut self, n: u32)
        ensures
            final(self)@ == (StateView { n_ledger_entries: n, ..old(self)@ }),
    {
        self.n_ledger_entries = n;
    }

    pub(crate) fn set_n_stake_accounts(&mut self, n: u32)
        ensures
            final(self)@ == (StateView { n_stake_accounts: n, ..old(self)@ }),
    {
        self.n_stake_accounts = n;
    }

    pub(crate) fn set_n_stake_accounts_unbonding(&mut self, n: u32)
        ensures
            final(self)@ == (StateView { n_stake_accounts_unbonding: n, ..old(self)@ }),
    {
        self.n_stake_accounts_unbonding = n;
    }

    pub(crate) fn set_n_delegation_mutations(&mut self, n: u128)
        ensures
            final(self)@ == (StateView { n_delegation_mutations: n, ..old(self)@ }),
    {
        self.n_delegation_mutations = n;
    }

    pub(crate) fn set_ledger_entry(&mut self, seq_no: u128, entry: LedgerEntry)
        ensures
            final(self)@ == (StateView {
                ledger: old(self)@.ledger.insert(seq_no, entry),
                ..old(self)@
            }),
    {
        self.ledger.insert(seq_no, entry);
    }

    pub(crate) fn remove_ledger_entry(&mut self, seq_no: u128)
        ensures
            final(self)@ == (StateView { ledger: old(self)@.ledger.remove(seq_no), ..old(self)@ }),
    {
        self.ledger.remove(&seq_no);
    }

    /// Opens an account at the end of the list.
    pub(crate) fn push_stake_account(&mut self, address: String, account: StakeAccount)
        ensures
            final(self)@ == (StateView {
                accounts: old(self)@.accounts.push(Staker { address: address@, account }),
                ..old(self)@
            }),
    {
        self.accounts.push(StakeEntry { address, account });
        assert(self@.accounts =~= old(self)@.accounts.push(Staker { address: address@, account }));
    }

    /// Closes the account at a position; those behind it move up.
    pub(crate) fn remove_stake_account(&mut self, i: usize)
        requires
            i < old(self)@.accounts.len(),
        ensures
            final(self)@ == (StateView {
                accounts: old(self)@.accounts.remove(i as int),
                ..old(self)@
            }),
    {
        self.accounts.remove(i);
        assert(self@.accounts =~= old(self)@.accounts.remove(i as int));
    }

    pub(crate) fn queue_push_back(&mut self, address: String)
        ensures
            final(self)@ == (StateView {
                memoization_queue: old(self)@.memoization_queue.push(address@),
                ..old(self)@
            }),
    {
        self.memoization_queue.push_back(address);
        assert(self@.memoization_queue =~= old(self)@.memoization_queue.push(address@));
    }

    pub(crate) fn queue_pop_front(&mut self) -> (r: Option<String>)
        ensures
            match r {
                Some(address) => {
                    &&& old(self)@.memoization_queue.len() > 0
                    &&& address@ == old(self)@.memoization_queue[0]
                    &&& final(self)@ == (StateView {
                        memoization_queue: old(self)@.memoization_queue.drop_first(),
                        ..old(self)@
                    })
                },
                None => old(self)@.memoization_queue.len() == 0 && final(self)@ == old(self)@,
            },
    {
        let r = self.memoization_queue.pop_front();
        assert(r is Some ==> self@.memoization_queue =~= old(self)@.memoization_queue.drop_first());
        assert(r is None ==> self@.memoization_queue =~= old(self)@.memoization_queue);
        r
    }

    /// The position of the account under `address`.
    pub fn find_stake_account(&self, address: &String) -> (r: Option<usize>)
        ensures
            match r {
                Some(i) => lookup(self@.accounts, address@) == Some(i as int),
                None => lookup(self@.accounts, address@) is None,
            },
    {
        let mut k: usize = 0;
        while k < self.accounts.len()
            invariant
                k <= self.accounts@.len(),
                forall|j: int| 0 <= j < k ==> self@.accounts[j].address != address@,
            decreases self.accounts@.len() - k,
        {
            if self.accounts[k].address == *address {
                proof {
                    lemma_lookup_is(self@.accounts, address@, k as int);
                }
                return Some(k);
            }
            k += 1;
        }
        proof {
            lemma_lookup(self@.accounts, address@);
        }
        None
    }

    /// The number of stake accounts.
    pub fn stake_accounts_len(&self) -> (r: usize)
        ensures
            r == self@.accounts.len(),
    {
        self.accounts.len()
    }

    /// The address of the account at a position.
    pub fn stake_address_at(&self, i: usize) -> (r: &String)
        requires
            i < self@.accounts.len(),
        ensures
            r@ == self@.accounts[i as int].address,
    {
        &self.accounts[i].address
    }

    /// The addresses of the stake accounts, in the order in which the
    /// accounts were opened.
    pub fn stake_addresses(&self) -> (r: Vec<&String>)
        ensures
            views(r@) == staker_addresses(self@.accounts),
    {
        let mut found: Vec<&String> = Vec::new();
        let mut k: usize = 0;
        while k < self.accounts.len()
            invariant
                k <= self.accounts@.len(),
                found@.len() == k,
                forall|j: int| 0 <= j < k ==> (#[trigger] found@[j])@ == self@.accounts[j].address,
            decreases self.accounts@.len() - k,
        {
            found.push(&self.accounts[k].address);
            k += 1;
        }
        assert(views(found@) =~= staker_addresses(self@.accounts));
        found
    }

    /// The addresses of the clients, in the order in which the clients were
    /// connected.
    pub fn client_addresses(&self) -> (r: Vec<&String>)
        ensures
            views(r@) == addresses_of(self@.clients),
    {
        self.clients.addresses()
    }

    /// The addresses of the tax recipients, in the order in which the
    /// recipients were set.
    pub fn tax_recipient_addresses(&self) -> (r: Vec<&String>)
        ensures
            views(r@) == addresses_of(self@.tax_recipients),
    {
        self.tax_recipients.addresses()
    }

    /// The number of clients.
    pub fn clients_len(&self) -> (r: usize)
        ensures
            r == self@.clients.len(),
    {
        self.clients.len()
    }

    /// The account at a position.
    pub fn stake_account_at(&self, i: usize) -> (r: StakeAccount)
        requires
            i < self@.accounts.len(),
        ensures
            r == self@.accounts[i as int].account,
    {
        self.accounts[i].account
    }

    /// Writes the account at a position.
    pub(crate) fn set_stake_account(&mut self, i: usize, account: StakeAccount)
        requires
            i < old(self)@.accounts.len(),
        ensures
            final(self)@ == (StateView {
                accounts: old(self)@.accounts.update(
                    i as int,
                    Staker { address: old(self)@.accounts[i as int].address, account },
                ),
                ..old(self)@
            }),
    {
        self.accounts[i].account = account;
        assert(self@.accounts =~= old(self)@.accounts.update(
            i as int,
            Staker { address: old(self)@.accounts[i as int].address, account },
        ));
    }
}

impl State {
    /// Replays the entries from the account's sequence number up to but not
    /// including `upto` against a copy of the account.
    pub(crate) fn replay_account(&self, account: StakeAccount, upto: u128) -> (r: Result<
        StakeAccount,
        ContractError,
    >)
        ensures
            r == replay(self@.ledger, account, upto),
    {
        let mut current = account;
        while current.seq_no < upto
            invariant
                replay(self@.ledger, current, upto) == replay(self@.ledger, account, upto),
            decreases upto - current.seq_no,
        {
            let entry = match self.ledger_entry(current.seq_no) {
                Some(e) => e,
                None => { return Err(ContractError::InvariantViolation); },
            };
            let replayed = match apply_entry(&current, &entry) {
                Ok(a) => a,
                Err(e) => { return Err(e); },
            };
            current =
            StakeAccount {
                is_suspended: replayed.is_suspended,
                delegation: replayed.delegation,
                dividends: replayed.dividends,
                liquidity: replayed.liquidity,
                unbonding: replayed.unbonding,
                seq_no: current.seq_no + 1,
            };
        }
        Ok(current)
    }

    /// The account as it will be once it is brought up to date.
    pub(crate) fn plan_sync(&self, account: StakeAccount, is_final: bool) -> (r: Result<
        StakeAccount,
        ContractError,
    >)
        ensures
            match sync_account_spec(self@, account, is_final) {
                Err(e) => r == Err::<StakeAccount, ContractError>(e),
                Ok((_, a)) => r == Ok::<StakeAccount, ContractError>(a),
            },
    {
        if self.n_ledger_entries() == 0 {
            return Ok(account);
        }
        let mut current_seq_no = self.ledger_entry_seq_no();
        if current_seq_no != 0 && !is_final {
            current_seq_no -= 1;
        }
        self.replay_account(account, current_seq_no)
    }

    /// The sequence number that the ledger will be at once a change is
    /// written to it.
    pub(crate) fn plan_upsert(
        &self,
        delta_revenue: u128,
        delta_dividends: u128,
        delta_loss: u128,
    ) -> (r: Result<u128, ContractError>)
        ensures
            match upsert_spec(self@, delta_revenue, delta_dividends, delta_loss) {
                Err(e) => r == Err::<u128, ContractError>(e),
                Ok((s, _)) => r == Ok::<u128, ContractError>(s.ledger_entry_seq_no),
            },
    {
        let seq_no = self.ledger_entry_seq_no();
        if seq_no > 0 {
            match self.ledger_entry(seq_no - 1) {
                Some(latest) => {
                    if latest.tag == self.n_delegation_mutations() {
                        increment(latest.delta_revenue, delta_revenue)?;
                        increment(latest.delta_dividends, delta_dividends)?;
                        increment(latest.delta_loss, delta_loss)?;
                        return Ok(seq_no);
                    }
                },
                None => {},
            }
        }
        if seq_no == u128::MAX || self.n_ledger_entries() == u32::MAX {
            return Err(ContractError::Overflow);
        }
        Ok(seq_no + 1)
    }

    /// What a replay of the entries from `from` up to but not including `to`
    /// does to the ledger.
    pub(crate) fn ledger_updates(&self, from: u128, to: u128) -> (r: LedgerUpdates)
        ensures
            r.zombie_entry_indices@ == zombies(self@.ledger, from, to),
            r.updated_entries@ == updated(self@.ledger, from, to),
    {
        let mut zombie_entry_indices: Vec<u128> = Vec::new();
        let mut updated_entries: Vec<(u128, LedgerEntry)> = Vec::new();
        let mut i: u128 = from;
        while i < to
            invariant
                from <= i,
                i <= to || to <= from,
                zombie_entry_indices@ == zombies(self@.ledger, from, if i <= to { i } else { to }),
                updated_entries@ == updated(self@.ledger, from, if i <= to { i } else { to }),
            decreases to - i,
        {
            match self.ledger_entry(i) {
                Some(entry) => {
                    if entry.ref_count > 1 {
                        updated_entries.push(
                            (
                                i,
                                LedgerEntry {
                                    liquidity: entry.liquidity,
                                    delegation: entry.delegation,
                                    delta_revenue: entry.delta_revenue,
                                    delta_dividends: entry.delta_dividends,
                                    delta_loss: entry.delta_loss,
                                    ref_count: entry.ref_count - 1,
                                    tag: entry.tag,
                                },
                            ),
                        );
                    } else {
                        zombie_entry_indices.push(i);
                    }
                },
                None => {},
            }
            i += 1;
        }
        LedgerUpdates { zombie_entry_indices, updated_entries }
    }

    /// Takes one reference from each entry from `from` up to but not
    /// including `to`, and drops the entries that are left with none.
    pub(crate) fn release_range(&mut self, from: u128, to: u128)
        requires
            old(self)@.ledger.dom().finite(),
            old(self)@.n_ledger_entries == old(self)@.ledger.dom().len(),
            forall|i: u128|
                from <= i < to ==> #[trigger] old(self)@.ledger.dom().contains(i) && old(
                    self,
                )@.ledger[i].ref_count >= 1,
        ensures
            final(self)@.ledger.dom().finite(),
            final(self)@.n_ledger_entries == final(self)@.ledger.dom().len(),
            final(self)@ == (StateView {
                ledger: release(old(self)@.ledger, from, to),
                n_ledger_entries: final(self)@.n_ledger_entries,
                ..old(self)@
            }),
            final(self)@.n_ledger_entries == old(self)@.n_ledger_entries - zombies(
                old(self)@.ledger,
                from,
                to,
            ).len(),
    {
        let mut i: u128 = from;
        assert(self@.ledger =~= release(old(self)@.ledger, from, from));
        if to <= from {
            assert(self@.ledger =~= release(old(self)@.ledger, from, to));
            return ;
        }
        while i < to
            invariant
                from <= i <= to,
                self@.ledger.dom().finite(),
                self@.n_ledger_entries == self@.ledger.dom().len(),
                forall|j: u128|
                    from <= j < to ==> #[trigger] old(self)@.ledger.dom().contains(j) && old(
                        self,
                    )@.ledger[j].ref_count >= 1,
                self@ == (StateView {
                    ledger: release(old(self)@.ledger, from, i),
                    n_ledger_entries: self@.n_ledger_entries,
                    ..old(self)@
                }),
                self@.n_ledger_entries == old(self)@.n_ledger_entries - zombies(
                    old(self)@.ledger,
                    from,
                    i,
                ).len(),
            decreases to - i,
        {
            let ghost before = self@;
            assert(old(self)@.ledger.dom().contains(i));
            assert(before.ledger.dom().contains(i));
            let entry = match self.ledger_entry(i) {
                Some(e) => e,
                None => { return ; },
            };
            if entry.ref_count > 1 {
                self.set_ledger_entry(
                    i,
                    LedgerEntry {
                        liquidity: entry.liquidity,
                        delegation: entry.delegation,
                        delta_revenue: entry.delta_revenue,
                        delta_dividends: entry.delta_dividends,
                        delta_loss: entry.delta_loss,
                        ref_count: entry.ref_count - 1,
                        tag: entry.tag,
                    },
                );
                assert(self@.ledger.dom() =~= before.ledger.dom());
            } else {
                let n = self.n_ledger_entries();
                assert(n >= 1) by {
                    if before.ledger.dom().len() == 0 {
                        assert(!before.ledger.dom().contains(i));
                    }
                }
                self.remove_ledger_entry(i);
                self.set_n_ledger_entries(n - 1);
            }
            assert(self@.ledger =~= release(old(self)@.ledger, from, (i + 1) as u128));
            i += 1;
        }
    }
}

/// Brings a copy of an account up to date without touching the ledger, and
/// tells what the replay would do to the ledger.
///
/// The account replays every entry from its own sequence number up to the
/// end of the ledger, or up to the latest entry where the replay is not
/// final. With an empty ledger nothing happens. On an error the account is
/// left as it was.
pub fn sync_account_readonly(state: &State, account: &mut StakeAccount, is_final: bool) -> (r:
    Result<LedgerUpdates, ContractError>)
    ensures
        match sync_account_spec(state@, *old(account), is_final) {
            Err(e) => r == Err::<LedgerUpdates, ContractError>(e) && *final(account) == *old(
                account,
            ),
            Ok((_, a)) => {
                &&& r is Ok
                &&& *final(account) == a
                &&& r->Ok_0.zombie_entry_indices@ == if state@.n_ledger_entries == 0 {
                    Seq::empty()
                } else {
                    zombies(
                        state@.ledger,
                        old(account).seq_no,
                        sync_target(state@.ledger_entry_seq_no, is_final),
                    )
                }
                &&& r->Ok_0.updated_entries@ == if state@.n_ledger_entries == 0 {
                    Seq::empty()
                } else {
                    updated(
                        state@.ledger,
                        old(account).seq_no,
                        sync_target(state@.ledger_entry_seq_no, is_final),
                    )
                }
            },
        },
{
    if state.n_ledger_entries() == 0 {
        return Ok(LedgerUpdates { zombie_entry_indices: Vec::new(), updated_entries: Vec::new() });
    }
    let mut current_seq_no = state.ledger_entry_seq_no();
    if current_seq_no != 0 && !is_final {
        current_seq_no -= 1;
    }
    let replayed = state.replay_account(*account, current_seq_no)?;
    let updates = state.ledger_updates(account.seq_no, current_seq_no);
    *account = replayed;
    Ok(updates)
}

/// Brings an account up to date and lets the ledger forget the references
/// that the account held. The caller writes the account back.
pub(crate) fn sync_account(state: &mut State, account: &mut StakeAccount, is_final: bool) -> (r:
    Result<(), ContractError>)
    requires
        old(state)@.ledger.dom().finite(),
        old(state)@.n_ledger_entries == old(state)@.ledger.dom().len(),
    ensures
        match sync_account_spec(old(state)@, *old(account), is_final) {
            Err(e) => r == Err::<(), ContractError>(e) && *final(account) == *old(account)
                && final(state)@ == old(state)@,
            Ok((s, a)) => r is Ok && *final(account) == a && final(state)@ == s,
        },
        final(state)@.ledger.dom().finite(),
        final(state)@.n_ledger_entries == final(state)@.ledger.dom().len(),
{
    if state.n_ledger_entries() == 0 {
        return Ok(());
    }
    let mut current_seq_no = state.ledger_entry_seq_no();
    if current_seq_no != 0 && !is_final {
        current_seq_no -= 1;
    }
    let replayed = state.replay_account(*account, current_seq_no)?;
    proof {
        lemma_replay_entries(state@.ledger, *account, current_seq_no);
    }
    state.release_range(account.seq_no, current_seq_no);
    *account = replayed;
    Ok(())
}

/// Writes a change of the pool's value to the ledger and returns the entry
/// that holds it now.
///
/// While no stake has changed since the latest entry was made, the change is
/// added to that entry; otherwise a new entry is made from the pool's
/// current totals, with one reference for each account that is not
/// unbonding. The pool's own totals are left to the caller.
pub fn upsert_ledger_entry(
    state: &mut State,
    delta_revenue: u128,
    delta_dividends: u128,
    delta_loss: u128,
) -> (r: Result<LedgerEntry, ContractError>)
    requires
        old(state)@.wf(),
    ensures
        match upsert_spec(old(state)@, delta_revenue, delta_dividends, delta_loss) {
            Err(e) => r == Err::<LedgerEntry, ContractError>(e) && final(state)@ == old(state)@,
            Ok((s, entry)) => r == Ok::<LedgerEntry, ContractError>(entry) && final(state)@ == s,
        },
        final(state)@.wf(),
{
    let seq_no = state.ledger_entry_seq_no();
    let tag = state.n_delegation_mutations();
    proof {
        lemma_active_count(state@);
        if upsert_spec(state@, delta_revenue, delta_dividends, delta_loss) is Ok {
            lemma_upsert_wf(state@, delta_revenue, delta_dividends, delta_loss);
        }
    }
    // First try to add to the latest entry instead of making a new one: the
    // fewer entries there are, the less a replay costs.
    if seq_no > 0 {
        match state.ledger_entry(seq_no - 1) {
            Some(latest) => {
                if latest.tag == tag {
                    let revenue = increment(latest.delta_revenue, delta_revenue)?;
                    let dividends = increment(latest.delta_dividends, delta_dividends)?;
                    let loss = increment(latest.delta_loss, delta_loss)?;
                    let entry = LedgerEntry {
                        liquidity: latest.liquidity,
                        delegation: latest.delegation,
                        delta_revenue: revenue,
                        delta_dividends: dividends,
                        delta_loss: loss,
                        ref_count: latest.ref_count,
                        tag: latest.tag,
                    };
                    state.set_ledger_entry(seq_no - 1, entry);
                    return Ok(entry);
                }
            },
            None => {},
        }
    }
    let n_entries = state.n_ledger_entries();
    if seq_no == u128::MAX || n_entries == u32::MAX {
        return Err(ContractError::Overflow);
    }
    // The count is the number of accounts that will have to replay the
    // entry. Unbonding accounts are not among them.
    let ref_count = state.n_stake_accounts() - state.n_stake_accounts_unbonding();
    let entry = LedgerEntry {
        liquidity: state.pool().liquidity,
        delegation: state.pool().delegation,
        delta_revenue,
        delta_dividends,
        delta_loss,
        ref_count,
        tag,
    };
    state.set_ledger_entry(seq_no, entry);
    state.set_n_ledger_entries(n_entries + 1);
    state.set_ledger_entry_seq_no(seq_no + 1);
    Ok(entry)
}

/// Rejects an amount below the minimum.
pub fn ensure_min_amount(amount: u128, min_amount: u128) -> (r: Result<(), ContractError>)
    ensures
        amount < min_amount ==> r == Err::<(), ContractError>(ContractError::InsufficientAmount),
        amount >= min_amount ==> r is Ok,
{
    if amount < min_amount {
        Err(ContractError::InsufficientAmount)
    } else {
        Ok(())
    }
}

/// Sets a pool up: owned by `owner`, or by the sender where none is named,
/// with the tax recipients given, no stake and no history.
pub fn initialize(
    sender: String,
    owner: Option<Owner>,
    taxes: &Option<Vec<TaxRecipient>>,
    token: Token,
    config: Config,
) -> (r: Result<State, ContractError>)
    ensures
        ({
            let first = StateView::empty(
                match owner {
                    Some(o) => o,
                    None => Owner::Address(sender),
                },
                token,
                config,
            );
            let recipients = match *taxes {
                Some(t) => with_recipients(Seq::empty(), t@),
                None => Ok(Seq::empty()),
            };
            if config.tax_rate > PCT_SCALE || config.restake_rate > PCT_SCALE {
                r == Err::<State, ContractError>(ContractError::ValidationError)
            } else {
                match recipients {
                    Err(e) => r == Err::<State, ContractError>(e),
                    Ok(t) => r is Ok && r->Ok_0@ == (StateView { tax_recipients: t, ..first })
                        && r->Ok_0@.wf(),
                }
            }
        }),
{
    let owner = match owner {
        Some(o) => o,
        None => Owner::Address(sender),
    };
    let mut state = State::new(owner, token, config)?;
    match taxes {
        Some(recipients) => {
            insert_tax_recipients(&mut state, recipients)?;
        },
        None => {},
    }
    Ok(state)
}

/// The stake account under an address.
pub fn load_stake_account(state: &State, addr: &String) -> (r: Result<StakeAccount, ContractError>)
    ensures
        r == match account_of(state@.accounts, addr@) {
            Some(account) => Ok::<StakeAccount, ContractError>(account),
            None => Err::<StakeAccount, ContractError>(ContractError::StakeAccountNotFound),
        },
{
    match state.stake_account(addr) {
        Some(account) => Ok(account),
        None => Err(ContractError::StakeAccountNotFound),
    }
}

/// The balance that an address keeps with the pool.
pub fn load_bank_account(state: &State, addr: &String) -> (r: Result<BankAccount, ContractError>)
    ensures
        r == match value_of(state@.bank_accounts, addr@) {
            Some(balance) => Ok::<BankAccount, ContractError>(
                BankAccount { address: None, balance },
            ),
            None => Err::<BankAccount, ContractError>(ContractError::BankAccountNotFound),
        },
{
    match state.find_bank_account(addr) {
        Some(i) => Ok(BankAccount { address: None, balance: state.bank_balance_at(i) }),
        None => Err(ContractError::BankAccountNotFound),
    }
}

/// The client under an address.
pub fn load_client(state: &State, addr: &String) -> (r: Result<Client, ContractError>)
    ensures
        r == match value_of(state@.clients, addr@) {
            Some(client) => Ok::<Client, ContractError>(client),
            None => Err::<Client, ContractError>(ContractError::ClientNotFound),
        },
{
    match state.find_client(addr) {
        Some(i) => Ok(clone_client(state.client_at(i))),
        None => Err(ContractError::ClientNotFound),
    }
}

/// Suspends the client under an address, which must exist.
pub fn suspend_client(state: &mut State, client_addr: &String) -> (r: Result<(), ContractError>)
    requires
        old(state)@.wf(),
    ensures
        match position(old(state)@.clients, client_addr@) {
            None => r == Err::<(), ContractError>(ContractError::NotAuthorized) && final(state)@
                == old(state)@,
            Some(i) => r is Ok && final(state)@ == (StateView {
                clients: old(state)@.clients.update(
                    i,
                    Keyed {
                        address: old(state)@.clients[i].address,
                        value: Client { is_suspended: true, ..old(state)@.clients[i].value },
                    },
                ),
                ..old(state)@
            }),
        },
        final(state)@.wf(),
{
    match state.find_client(client_addr) {
        Some(i) => {
            let budget = state.client_at(i).config.budget;
            let revenue = state.client_at(i).revenue;
            let expense = state.client_at(i).expense;
            state.settle_client(i, budget, true, revenue, expense);
            assert(state@.clients =~= old(state)@.clients.update(
                i as int,
                Keyed {
                    address: old(state)@.clients[i as int].address,
                    value: Client { is_suspended: true, ..old(state)@.clients[i as int].value },
                },
            ));
            Ok(())
        },
        // The client is not found.
        None => Err(ContractError::NotAuthorized),
    }
}

} // verus!
