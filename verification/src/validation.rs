//! Testing a state that was built from its parts.
use vstd::prelude::*;

use crate::models::StakeAccount;
use crate::state::State;
use crate::utils::PCT_SCALE;
use crate::view::Staker;
use crate::view::StateView;
use crate::view::behind;
use crate::view::behind_weight;
use crate::view::delegation_weight;
use crate::view::lemma_total_bounds;
use crate::view::total;
use crate::view::unbonding_weight;

verus! {

/// The sum over one account more.
pub proof fn lemma_total_take(accounts: Seq<Staker>, weight: spec_fn(StakeAccount) -> int, k: int)
    requires
        0 <= k < accounts.len(),
    ensures
        total(accounts.take(k + 1), weight) == total(accounts.take(k), weight) + weight(
            accounts[k].account,
        ),
{
    assert(accounts.take(k + 1).drop_last() =~= accounts.take(k));
}

/// What one pass over the accounts finds.
pub struct Census {
    /// The number of unbonding accounts.
    pub unbonding: usize,
    /// What the accounts that are not unbonding have staked, if it fits.
    pub delegation: Option<u128>,
    /// No account is ahead of the ledger.
    pub in_range: bool,
    /// Every account that is not unbonding is short of the end of the
    /// ledger.
    pub all_short: bool,
    /// The sequence number of the account that is furthest back among those
    /// that are not unbonding.
    pub least_active: Option<u128>,
}

/// The census is that of the first `k` accounts.
pub open spec fn census_of(census: Census, s: StateView, k: int) -> bool {
    let accounts = s.accounts.take(k);
    &&& census.unbonding == total(accounts, unbonding_weight())
    &&& match census.delegation {
        Some(d) => d == total(accounts, delegation_weight()),
        None => total(accounts, delegation_weight()) > u128::MAX,
    }
    &&& census.in_range == (forall|j: int|
        0 <= j < k ==> (#[trigger] s.accounts[j]).account.seq_no <= s.ledger_entry_seq_no)
    &&& census.all_short == (forall|j: int|
        0 <= j < k && (#[trigger] s.accounts[j]).account.is_active()
            ==> s.accounts[j].account.seq_no < s.ledger_entry_seq_no)
    &&& match census.least_active {
        Some(m) => {
            &&& exists|j: int|
                0 <= j < k && (#[trigger] s.accounts[j]).account.is_active()
                    && s.accounts[j].account.seq_no == m
            &&& forall|j: int|
                0 <= j < k && (#[trigger] s.accounts[j]).account.is_active() ==> m
                    <= s.accounts[j].account.seq_no
        },
        None => forall|j: int| 0 <= j < k ==> !(#[trigger] s.accounts[j]).account.is_active(),
    }
}

/// Goes over the accounts once.
fn census(state: &State) -> (r: Census)
    ensures
        census_of(r, state@, state@.accounts.len() as int),
{
    let n = state.stake_accounts_len();
    let seq_no = state.ledger_entry_seq_no();
    let mut found = Census {
        unbonding: 0,
        delegation: Some(0),
        in_range: true,
        all_short: true,
        least_active: None,
    };
    let mut k: usize = 0;
    assert(state@.accounts.take(0) =~= Seq::empty());
    while k < n
        invariant
            k <= n == state@.accounts.len(),
            seq_no == state@.ledger_entry_seq_no,
            found.unbonding <= k,
            census_of(found, state@, k as int),
        decreases n - k,
    {
        let account = state.stake_account_at(k);
        proof {
            lemma_total_take(state@.accounts, unbonding_weight(), k as int);
            lemma_total_take(state@.accounts, delegation_weight(), k as int);
        }
        let ghost before = found;
        if account.seq_no > seq_no {
            found.in_range = false;
        }
        if account.unbonding.is_some() {
            found.unbonding = found.unbonding + 1;
        } else {
            if account.seq_no >= seq_no {
                found.all_short = false;
            }
            found.delegation =
            match found.delegation {
                Some(d) => d.checked_add(account.delegation),
                None => None,
            };
            found.least_active =
            match found.least_active {
                Some(m) => if account.seq_no < m {
                    Some(account.seq_no)
                } else {
                    Some(m)
                },
                None => Some(account.seq_no),
            };
        }
        proof {
            assert(state@.accounts[k as int].account == account);
            if account.is_active() {
                match before.least_active {
                    Some(m) => {
                        let w = choose|j: int|
                            0 <= j < k && (#[trigger] state@.accounts[j]).account.is_active()
                                && state@.accounts[j].account.seq_no == m;
                        if account.seq_no < m {
                            assert(state@.accounts[k as int].account.seq_no
                                == found.least_active->Some_0);
                        } else {
                            assert(state@.accounts[w].account.seq_no
                                == found.least_active->Some_0);
                        }
                    },
                    None => {
                        assert(state@.accounts[k as int].account.seq_no
                            == found.least_active->Some_0);
                    },
                }
            } else {
                match before.least_active {
                    Some(m) => {
                        let w = choose|j: int|
                            0 <= j < k && (#[trigger] state@.accounts[j]).account.is_active()
                                && state@.accounts[j].account.seq_no == m;
                        assert(state@.accounts[w].account.seq_no == found.least_active->Some_0);
                    },
                    None => {},
                }
            }
        }
        k += 1;
    }
    assert(state@.accounts.take(k as int) =~= state@.accounts);
    found
}

/// Tells whether no address has two accounts.
fn addresses_are_distinct(state: &State) -> (r: bool)
    ensures
        r == (forall|i: int, j: int|
            0 <= i < j < state@.accounts.len() ==> state@.accounts[i].address
                != state@.accounts[j].address),
{
    let n = state.stake_accounts_len();
    let mut j: usize = 0;
    while j < n
        invariant
            j <= n == state@.accounts.len(),
            forall|a: int, b: int|
                0 <= a < b < j ==> state@.accounts[a].address != state@.accounts[b].address,
        decreases n - j,
    {
        let mut i: usize = 0;
        while i < j
            invariant
                i <= j < n == state@.accounts.len(),
                forall|a: int| 0 <= a < i ==> state@.accounts[a].address != state@.accounts[j as int].address,
            decreases j - i,
        {
            if *state.stake_address_at(i) == *state.stake_address_at(j) {
                return false;
            }
            i += 1;
        }
        j += 1;
    }
    true
}

/// The number of accounts that are not unbonding and have yet to replay the
/// entry `i`.
fn count_behind(state: &State, i: u128) -> (r: usize)
    ensures
        r == behind(state@.accounts, i),
{
    let n = state.stake_accounts_len();
    let mut count: usize = 0;
    let mut k: usize = 0;
    assert(state@.accounts.take(0) =~= Seq::empty());
    while k < n
        invariant
            k <= n == state@.accounts.len(),
            count <= k,
            count == total(state@.accounts.take(k as int), behind_weight(i)),
        decreases n - k,
    {
        let account = state.stake_account_at(k);
        proof {
            lemma_total_take(state@.accounts, behind_weight(i), k as int);
        }
        if account.unbonding.is_none() && account.seq_no <= i {
            count = count + 1;
        }
        k += 1;
    }
    assert(state@.accounts.take(k as int) =~= state@.accounts);
    count
}

/// Tells whether every entry of the ledger lies before its end, counts the
/// accounts that have yet to replay it, and is no younger than the
/// coalescing tag.
fn entries_are_valid(state: &State) -> (r: bool)
    ensures
        r == (forall|i: u128| #[trigger]
            state@.ledger.dom().contains(i) ==> {
                &&& i < state@.ledger_entry_seq_no
                &&& state@.ledger[i].ref_count == behind(state@.accounts, i)
                &&& state@.ledger[i].tag <= state@.n_delegation_mutations
            }),
{
    let keys = state.ledger_keys();
    let seq_no = state.ledger_entry_seq_no();
    let tag = state.n_delegation_mutations();
    let mut k: usize = 0;
    while k < keys.len()
        invariant
            k <= keys@.len(),
            keys@.to_set() == state@.ledger.dom(),
            seq_no == state@.ledger_entry_seq_no,
            tag == state@.n_delegation_mutations,
            forall|j: int|
                0 <= j < k ==> {
                    &&& (#[trigger] keys@[j]) < state@.ledger_entry_seq_no
                    &&& state@.ledger[keys@[j]].ref_count == behind(state@.accounts, keys@[j])
                    &&& state@.ledger[keys@[j]].tag <= state@.n_delegation_mutations
                },
        decreases keys@.len() - k,
    {
        let i = keys[k];
        assert(keys@.to_set().contains(keys@[k as int]));
        let entry = match state.ledger_entry(i) {
            Some(e) => e,
            None => { return false; },
        };
        let owed = count_behind(state, i);
        if i >= seq_no || entry.tag > tag || owed > u32::MAX as usize || entry.ref_count
            != owed as u32 {
            return false;
        }
        k += 1;
    }
    assert forall|i: u128| #[trigger] state@.ledger.dom().contains(i) implies {
        &&& i < state@.ledger_entry_seq_no
        &&& state@.ledger[i].ref_count == behind(state@.accounts, i)
        &&& state@.ledger[i].tag <= state@.n_delegation_mutations
    } by {
        assert(keys@.to_set().contains(i));
        let j = choose|j: int| 0 <= j < keys@.len() && keys@[j] == i;
        assert(keys@[j] == i);
    }
    true
}

/// Tells whether the ledger holds every entry from `from` up to its end.
fn holds_all_from(state: &State, from: u128) -> (r: bool)
    ensures
        r == (forall|i: u128|
            from <= i < state@.ledger_entry_seq_no ==> #[trigger] state@.ledger.dom().contains(i)),
{
    let seq_no = state.ledger_entry_seq_no();
    let mut i = from;
    while i < seq_no
        invariant
            from <= i,
            seq_no == state@.ledger_entry_seq_no,
            forall|j: u128| from <= j < i ==> #[trigger] state@.ledger.dom().contains(j),
        decreases seq_no - i,
    {
        if state.ledger_entry(i).is_none() {
            return false;
        }
        i += 1;
    }
    true
}

/// Tells whether no tax recipient takes more than the whole.
fn tax_parts_are_valid(state: &State) -> (r: bool)
    ensures
        r == (forall|k: int|
            0 <= k < state@.tax_recipients.len() ==> (#[trigger] state@.tax_recipients[k]).value.pct
                <= PCT_SCALE),
{
    let n = state.tax_recipients_len();
    let mut k: usize = 0;
    while k < n
        invariant
            k <= n == state@.tax_recipients.len(),
            forall|j: int| 0 <= j < k ==> (#[trigger] state@.tax_recipients[j]).value.pct <= PCT_SCALE,
        decreases n - k,
    {
        if state.tax_recipient_at(k).pct > PCT_SCALE {
            return false;
        }
        k += 1;
    }
    true
}

/// Tells whether an address waits in the queue.
fn is_queued(state: &State, address: &String) -> (r: bool)
    ensures
        r == state@.memoization_queue.contains(address@),
{
    let n = state.memoization_queue_len();
    let mut j: usize = 0;
    while j < n
        invariant
            j <= n == state@.memoization_queue.len(),
            forall|i: int| 0 <= i < j ==> state@.memoization_queue[i] != address@,
        decreases n - j,
    {
        if *state.memoization_queue_at(j) == *address {
            return true;
        }
        j += 1;
    }
    false
}

/// Tells whether every account that is not unbonding waits in the queue.
fn stakers_are_queued(state: &State) -> (r: bool)
    ensures
        r == state@.wf_queue(),
{
    let n = state.stake_accounts_len();
    let mut k: usize = 0;
    while k < n
        invariant
            k <= n == state@.accounts.len(),
            forall|i: int|
                0 <= i < k && (#[trigger] state@.accounts[i]).account.is_active()
                    ==> state@.memoization_queue.contains(state@.accounts[i].address),
        decreases n - k,
    {
        if state.stake_account_at(k).unbonding.is_none() && !is_queued(
            state,
            state.stake_address_at(k),
        ) {
            return false;
        }
        k += 1;
    }
    true
}

/// An entry that lies before every account that is not unbonding is owed
/// to nobody.
pub proof fn lemma_nobody_owed(accounts: Seq<Staker>, i: u128)
    requires
        forall|j: int|
            0 <= j < accounts.len() && (#[trigger] accounts[j]).account.is_active() ==> i
                < accounts[j].account.seq_no,
    ensures
        behind(accounts, i) == 0,
    decreases accounts.len(),
{
    if accounts.len() > 0 {
        assert forall|j: int|
            0 <= j < accounts.drop_last().len() && (
            #[trigger] accounts.drop_last()[j]).account.is_active() implies i
            < accounts.drop_last()[j].account.seq_no by {
            assert(accounts.drop_last()[j] == accounts[j]);
        }
        lemma_nobody_owed(accounts.drop_last(), i);
        assert(accounts[accounts.len() - 1].account.is_active() ==> i < accounts[accounts.len()
            - 1].account.seq_no);
    }
}

/// Tells whether the state is valid. A state that is built from its parts
/// must pass this test before any operation is run on it.
pub fn is_valid(state: &State) -> (r: bool)
    ensures
        r == state@.wf(),
{
    let config = state.config();
    if config.tax_rate > PCT_SCALE || config.restake_rate > PCT_SCALE {
        return false;
    }
    if !tax_parts_are_valid(state) {
        return false;
    }
    if state.n_clients() as usize != state.clients_len() {
        return false;
    }
    if state.n_stake_accounts() as usize != state.stake_accounts_len() {
        return false;
    }
    if !addresses_are_distinct(state) {
        return false;
    }
    if !stakers_are_queued(state) {
        return false;
    }
    let found = census(state);
    assert(state@.accounts.take(state@.accounts.len() as int) =~= state@.accounts);
    if !found.in_range || state.n_stake_accounts_unbonding() as usize != found.unbonding {
        return false;
    }
    match found.delegation {
        Some(d) => {
            if d != state.pool().delegation {
                return false;
            }
        },
        None => { return false; },
    }
    let keys = state.ledger_keys();
    if state.n_ledger_entries() as usize != keys.len() {
        return false;
    }
    if !entries_are_valid(state) {
        return false;
    }
    let seq_no = state.ledger_entry_seq_no();
    match found.least_active {
        Some(least) => {
            let complete = holds_all_from(state, least);
            proof {
                let w = choose|j: int|
                    0 <= j < state@.accounts.len() && (
                    #[trigger] state@.accounts[j]).account.is_active()
                        && state@.accounts[j].account.seq_no == least;
                if complete {
                    assert forall|i: u128|
                        i < state@.ledger_entry_seq_no && #[trigger] behind(state@.accounts, i)
                            >= 1 implies state@.ledger.dom().contains(i) by {
                        if i < least {
                            lemma_nobody_owed(state@.accounts, i);
                        }
                    }
                } else {
                    let i = choose|i: u128|
                        least <= i < state@.ledger_entry_seq_no && !state@.ledger.dom().contains(
                            i,
                        );
                    lemma_total_bounds(state@.accounts, behind_weight(i));
                    assert(behind_weight(i)(state@.accounts[w].account) == 1);
                    assert(behind(state@.accounts, i) >= 1);
                }
            }
            if !complete {
                return false;
            }
        },
        None => {
            proof {
                assert forall|i: u128|
                    i < state@.ledger_entry_seq_no && #[trigger] behind(state@.accounts, i)
                        >= 1 implies state@.ledger.dom().contains(i) by {
                    lemma_nobody_owed(state@.accounts, i);
                }
            }
        },
    }
    if seq_no > 0 {
        match state.ledger_entry(seq_no - 1) {
            Some(latest) => {
                if latest.tag == state.n_delegation_mutations() && !found.all_short {
                    return false;
                }
            },
            None => {},
        }
    }
    true
}

} // verus!
