//! The values that the pool keeps and passes around.
use vstd::prelude::*;

verus! {

/// A point in time, in nanoseconds since the epoch.
#[derive(Debug, Clone, Copy, PartialEq, Eq, Structural)]
pub struct Timestamp {
    pub nanos: u64,
}

impl Timestamp {
    /// The whole seconds since the epoch.
    pub open spec fn spec_seconds(&self) -> u64 {
        self.nanos / 1_000_000_000
    }

    #[verifier::when_used_as_spec(spec_seconds)]
    pub fn seconds(&self) -> (r: u64)
        ensures
            r == self.spec_seconds(),
    {
        self.nanos / 1_000_000_000
    }
}

/// The block in which an operation runs.
#[derive(Debug, Clone, Copy, PartialEq, Eq, Structural)]
pub struct BlockInfo {
    pub height: u64,
    pub time: Timestamp,
}

/// The token that the pool holds.
#[derive(Debug, Clone, PartialEq, Eq)]
pub enum Token {
    Native { denom: String },
    Cw20 { address: String },
}

/// Who may administer the pool: one address, or whoever an access control
/// list admits.
#[derive(Debug, Clone, PartialEq, Eq)]
pub enum Owner {
    Address(String),
    Acl(String),
}

/// A window of time and the share of the pool that may leave within it.
#[derive(Debug, Clone, Copy, PartialEq, Eq, Structural)]
pub struct RateLimitConfig {
    pub interval_seconds: u64,
    /// In millionths of the liquidity at the start of the window.
    pub max_pct_change: u128,
}

/// The settings of the pool. The rates are in millionths.
#[derive(Debug, Clone, Copy, PartialEq, Eq, Structural)]
pub struct Config {
    /// The part of the revenue after tax that is added to liquidity; the rest
    /// is paid out as dividends.
    pub restake_rate: u128,
    pub tax_rate: u128,
    pub unbonding_seconds: u64,
    pub account_rate_limit: RateLimitConfig,
    pub default_client_rate_limit: RateLimitConfig,
}

/// The totals of the pool.
#[derive(Debug, Clone, PartialEq, Eq)]
pub struct Pool {
    pub token: Token,
    /// The sum of what the accounts that are not unbonding have staked.
    pub delegation: u128,
    pub liquidity: u128,
    pub dividends: u128,
    pub taxes: u128,
}

impl Token {
    /// A copy of the token.
    pub fn duplicate(&self) -> (r: Token)
        ensures
            r == *self,
    {
        match self {
            Token::Native { denom } => Token::Native { denom: denom.clone() },
            Token::Cw20 { address } => Token::Cw20 { address: address.clone() },
        }
    }
}

impl Pool {
    /// A pool of the token that holds nothing yet.
    pub fn new(token: &Token) -> (r: Self)
        ensures
            r == (Pool { token: *token, delegation: 0, liquidity: 0, dividends: 0, taxes: 0 }),
    {
        Pool { liquidity: 0, delegation: 0, dividends: 0, taxes: 0, token: token.duplicate() }
    }
}

/// What an account took out of the pool when it unstaked, and when.
#[derive(Debug, Clone, Copy, PartialEq, Eq, Structural)]
pub struct UnbondingInfo {
    pub amount: u128,
    pub time: Timestamp,
}

/// One staker's part of the pool.
#[derive(Debug, Clone, Copy, PartialEq, Eq, Structural)]
pub struct StakeAccount {
    pub is_suspended: Option<bool>,
    pub delegation: u128,
    pub dividends: u128,
    pub liquidity: u128,
    pub unbonding: Option<UnbondingInfo>,
    /// The sequence number of the first ledger entry that the account has
    /// not replayed yet.
    pub seq_no: u128,
}

impl StakeAccount {
    pub fn new(delegation: u128, seq_no: u128) -> (r: Self)
        ensures
            r == (StakeAccount {
                is_suspended: Some(false),
                delegation,
                dividends: 0,
                liquidity: delegation,
                unbonding: None,
                seq_no,
            }),
    {
        StakeAccount {
            seq_no,
            delegation,
            liquidity: delegation,
            dividends: 0,
            unbonding: None,
            is_suspended: Some(false),
        }
    }

    /// An account takes part in the distribution until it unstakes.
    pub open spec fn is_active(&self) -> bool {
        self.unbonding is None
    }
}

/// A change of the pool's value that the accounts staked at the time share in
/// proportion to their liquidity.
#[derive(Debug, Clone, Copy, PartialEq, Eq, Structural)]
pub struct LedgerEntry {
    /// The pool's liquidity when the entry was made.
    pub liquidity: u128,
    /// The pool's delegation when the entry was made.
    pub delegation: u128,
    pub delta_revenue: u128,
    pub delta_dividends: u128,
    pub delta_loss: u128,
    /// The number of accounts that have yet to replay the entry.
    pub ref_count: u32,
    /// The number of stake changes that the pool had seen when the entry was
    /// made.
    pub tag: u128,
}

/// What one account's replay does to the ledger.
#[derive(Debug, Clone, PartialEq, Eq)]
pub struct LedgerUpdates {
    /// The entries that no account refers to any more, in rising order.
    pub zombie_entry_indices: Vec<u128>,
    /// The entries that other accounts still refer to, with their new
    /// counts, in rising order.
    pub updated_entries: Vec<(u128, LedgerEntry)>,
}

/// A balance that an address keeps with the pool.
#[derive(Debug, Clone, PartialEq, Eq)]
pub struct BankAccount {
    pub address: Option<String>,
    pub balance: u128,
}

/// Who gets which part of the taxes.
#[derive(Debug, Clone, PartialEq, Eq)]
pub struct TaxRecipient {
    pub address: Option<String>,
    /// In millionths of the taxes that are left when the recipient's turn
    /// comes.
    pub pct: u128,
    pub name: Option<String>,
    pub description: Option<String>,
    pub url: Option<String>,
}

/// What has come in as plain revenue from one address.
#[derive(Debug, Clone, PartialEq, Eq)]
pub struct RevenueStream {
    pub created_at: Timestamp,
    pub name: Option<String>,
    /// The number of times that revenue has come in from the address.
    pub execution_count: u64,
    pub revenue: u128,
}

impl RevenueStream {
    pub fn new(created_at: Timestamp, name: Option<String>) -> (r: Self)
        ensures
            r == (RevenueStream { created_at, name, execution_count: 0, revenue: 0 }),
    {
        RevenueStream { created_at, name, execution_count: 0, revenue: 0 }
    }
}

/// How much an address has moved within its current window.
#[derive(Debug, Clone, Copy, PartialEq, Eq, Structural)]
pub struct Usage {
    pub start_liquidity: u128,
    pub start_time: Timestamp,
    pub prev_height: u64,
    pub spent: u128,
    pub added: u128,
}

/// What the owner of the pool has set for one client.
#[derive(Debug, Clone, PartialEq, Eq)]
pub struct ClientConfig {
    pub name: Option<String>,
    pub description: Option<String>,
    pub url: Option<String>,
    /// What the client may still pay out in all. A client with a budget is
    /// not rate limited.
    pub budget: Option<u128>,
    pub rate_limit: RateLimitConfig,
}

/// A contract that may move money into and out of the pool.
#[derive(Debug, Clone, PartialEq, Eq)]
pub struct Client {
    pub address: Option<String>,
    pub config: ClientConfig,
    pub connected_at: Timestamp,
    pub is_suspended: bool,
    pub revenue: u128,
    pub expense: u128,
}

impl Client {
    pub fn new(
        connected_at: Timestamp,
        address: Option<String>,
        budget: Option<u128>,
        name: Option<String>,
        description: Option<String>,
        url: Option<String>,
        rate_limit: RateLimitConfig,
    ) -> (r: Self)
        ensures
            r == (Client {
                address,
                config: ClientConfig { name, description, url, budget, rate_limit },
                connected_at,
                is_suspended: false,
                revenue: 0,
                expense: 0,
            }),
    {
        Client {
            address,
            connected_at,
            expense: 0,
            revenue: 0,
            is_suspended: false,
            config: ClientConfig { name, rate_limit, description, url, budget },
        }
    }
}

/// What the owner of the pool says of a client that it connects.
#[derive(Debug, Clone, PartialEq, Eq)]
pub struct ClientInitArgs {
    pub address: Option<String>,
    pub name: Option<String>,
    pub description: Option<String>,
    pub url: Option<String>,
    pub budget: Option<u128>,
    pub rate_limit: Option<RateLimitConfig>,
}

/// What the rate limiter has noticed.
#[derive(Debug, Clone, PartialEq, Eq)]
pub enum HouseEvent {
    ClientRateLimitTriggered { block: BlockInfo, initiator: String, client: String },
    AccountRateLimitTriggered { block: BlockInfo, client: String, initiator: String },
}

/// An amount that comes from or goes to an address.
#[derive(Debug, Clone, PartialEq, Eq)]
pub struct AccountTokenAmount {
    pub address: String,
    pub amount: u128,
}

impl AccountTokenAmount {
    pub fn new(address: &String, amount: u128) -> (r: Self)
        ensures
            r.address == *address,
            r.amount == amount,
    {
        AccountTokenAmount { address: address.clone(), amount }
    }
}

/// One job of a client: what comes into the pool and what leaves it, on
/// behalf of the initiator.
#[derive(Debug, Clone, PartialEq, Eq)]
pub struct Job {
    pub initiator: String,
    pub incoming: Option<AccountTokenAmount>,
    pub outgoing: Option<AccountTokenAmount>,
}

/// What the rate limiter says of a movement.
#[derive(Debug, Clone, Copy, PartialEq, Eq, Structural)]
pub enum RateLimitEvent {
    /// The address was over its limit before: the movement is refused.
    Throttled,
    /// The movement takes the address over its limit: it is the last.
    Triggered,
}

} // verus!
