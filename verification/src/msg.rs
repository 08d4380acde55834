//! The questions that the pool answers and the shapes of its answers.
use vstd::prelude::*;

use crate::models::BankAccount;
use crate::models::Client;
use crate::models::ClientConfig;
use crate::models::LedgerEntry;
use crate::models::StakeAccount;
use crate::models::Timestamp;
use crate::utils::clone_client_config;

verus! {

/// What a migration is asked to do.
#[derive(Debug, Clone, Copy, PartialEq, Eq, Structural)]
pub enum MigrateMsg {
    NoOp {  },
    V0_0_4 {  },
    V0_0_5 {  },
}

/// The answer to the question whether a payment would go through.
#[derive(Debug, Clone, Copy, PartialEq, Eq, Structural)]
pub struct CanSpendResponse {
    pub can_spend: bool,
}

/// The counters of the pool.
#[derive(Debug, Clone, Copy, PartialEq, Eq, Structural)]
pub struct Metadata {
    pub n_accounts: u32,
    pub n_unbonding: u32,
    pub n_clients: u32,
    pub n_ledger_entries: u32,
    pub ledger_entry_seq_no: u128,
}

/// All that has come in and all that has gone out.
#[derive(Debug, Clone, Copy, PartialEq, Eq, Structural)]
pub struct Totals {
    pub revenue: u128,
    pub expense: u128,
}

/// What the pool knows of an address.
#[derive(Debug, Clone, PartialEq, Eq)]
pub struct AccountView {
    pub stake: Option<StakeAccount>,
    pub bank: Option<BankAccount>,
    pub client: Option<Client>,
    pub is_suspended: bool,
}

/// A ledger entry with its sequence number.
#[derive(Debug, Clone, Copy, PartialEq, Eq, Structural)]
pub struct LedgerEntryView {
    pub seq_no: u128,
    pub entry: LedgerEntry,
}

/// A client with its address and the number of its jobs.
#[derive(Debug, Clone, PartialEq, Eq)]
pub struct ClientView {
    pub address: String,
    pub config: ClientConfig,
    pub connected_at: Timestamp,
    pub is_suspended: bool,
    pub revenue: u128,
    pub expense: u128,
    pub executions: u64,
}

impl ClientView {
    pub fn new(client: &Client, address: &String, executions: u64) -> (r: Self)
        ensures
            r == (ClientView {
                address: *address,
                config: client.config,
                connected_at: client.connected_at,
                is_suspended: client.is_suspended,
                revenue: client.revenue,
                expense: client.expense,
                executions,
            }),
    {
        ClientView {
            executions,
            address: address.clone(),
            config: clone_client_config(&client.config),
            connected_at: client.connected_at,
            is_suspended: client.is_suspended,
            expense: client.expense,
            revenue: client.revenue,
        }
    }
}

/// The answer to the question after a client.
#[derive(Debug, Clone, PartialEq, Eq)]
pub struct ClientResponse {
    pub client: Option<ClientView>,
}

} // verus!
