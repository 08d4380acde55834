//! Every operation keeps a valid state valid.
use vstd::prelude::*;

use crate::ledger::lemma_release_len;
use crate::ledger::lemma_replay_keeps;
use crate::ledger::sync_target;
use crate::models::StakeAccount;
use crate::models::Timestamp;
use crate::transition::amortize_spec;
use crate::transition::amortize_step;
use crate::transition::claim_core;
use crate::transition::receive_core;
use crate::transition::revenue_split;
use crate::transition::send_core;
use crate::transition::stake_core;
use crate::transition::staked;
use crate::transition::sync_account_spec;
use crate::transition::unstake_core;
use crate::transition::upsert_spec;
use crate::transition::withdraw_core;
use crate::view::Staker;
use crate::view::StateView;
use crate::view::active_weight;
use crate::view::behind;
use crate::view::behind_weight;
use crate::view::delegation_weight;
use crate::view::lemma_active_and_unbonding;
use crate::view::lemma_lookup;
use crate::view::lemma_lookup_distinct;
use crate::view::lemma_total_bounds;
use crate::view::lemma_total_push;
use crate::view::lemma_total_remove;
use crate::view::lemma_total_same;
use crate::view::lemma_total_update;
use crate::view::lookup;
use crate::view::total;
use crate::view::unbonding_weight;

verus! {

/// Where no account that is not unbonding is past the entry `i`, every such
/// account has yet to replay it.
pub proof fn lemma_behind_all(accounts: Seq<Staker>, i: u128)
    requires
        forall|k: int|
            0 <= k < accounts.len() && (#[trigger] accounts[k]).account.is_active()
                ==> accounts[k].account.seq_no <= i,
    ensures
        behind(accounts, i) == total(accounts, active_weight()),
{
    lemma_total_same(accounts, behind_weight(i), active_weight());
}

/// The counters of a valid state tell how many accounts are not unbonding.
pub proof fn lemma_active_count(s: StateView)
    requires
        s.wf(),
    ensures
        s.n_stake_accounts_unbonding <= s.n_stake_accounts,
        total(s.accounts, active_weight()) == s.n_stake_accounts - s.n_stake_accounts_unbonding,
{
    lemma_active_and_unbonding(s.accounts);
}

/// Writing a change to the ledger keeps a valid state valid.
pub proof fn lemma_upsert_wf(
    s: StateView,
    delta_revenue: u128,
    delta_dividends: u128,
    delta_loss: u128,
)
    requires
        s.wf(),
        upsert_spec(s, delta_revenue, delta_dividends, delta_loss) is Ok,
    ensures
        upsert_spec(s, delta_revenue, delta_dividends, delta_loss)->Ok_0.0.wf(),
{
    let (s1, entry) = upsert_spec(s, delta_revenue, delta_dividends, delta_loss)->Ok_0;
    let seq_no = s.ledger_entry_seq_no;
    lemma_active_count(s);
    if s.latest_is_open() {
        let at = (seq_no - 1) as u128;
        assert(s1.ledger.dom() =~= s.ledger.dom());
        assert(s1.latest_is_open());
    } else {
        lemma_behind_all(s.accounts, seq_no);
        assert(!s.ledger.dom().contains(seq_no));
        assert forall|i: u128| #[trigger] s1.ledger.dom().contains(i) implies {
            &&& i < s1.ledger_entry_seq_no
            &&& s1.ledger[i].ref_count == behind(s1.accounts, i)
            &&& s1.ledger[i].tag <= s1.n_delegation_mutations
        } by {
            if i != seq_no {
                assert(s.ledger.dom().contains(i));
            }
        }
        assert forall|i: u128|
            i < s1.ledger_entry_seq_no && #[trigger] behind(s1.accounts, i) >= 1 implies s1.ledger.dom().contains(
            i,
        ) by {
            if i != seq_no {
                assert(s.ledger.dom().contains(i));
            }
        }
    }
}

/// In a valid state an account that is not unbonding and has replayed all
/// that the ledger holds is at the end of the ledger where the ledger is
/// empty.
pub proof fn lemma_empty_ledger(s: StateView, i: int)
    requires
        s.wf(),
        0 <= i < s.accounts.len(),
        s.accounts[i].account.is_active(),
        s.n_ledger_entries == 0,
    ensures
        s.accounts[i].account.seq_no == s.ledger_entry_seq_no,
{
    let a = s.accounts[i].account;
    if a.seq_no < s.ledger_entry_seq_no {
        lemma_total_bounds(s.accounts, behind_weight(a.seq_no));
        assert(behind_weight(a.seq_no)(s.accounts[i].account) == 1);
        assert(behind(s.accounts, a.seq_no) >= 1);
        assert(s.ledger.dom().contains(a.seq_no));
        assert(s.ledger.dom().len() == 0);
    }
}

/// The state after an account has been brought up to date and written
/// back.
pub open spec fn synced(s: StateView, i: int, is_final: bool) -> StateView {
    let (s1, a1) = sync_account_spec(s, s.accounts[i].account, is_final)->Ok_0;
    StateView {
        accounts: s.accounts.update(i, Staker { address: s.accounts[i].address, account: a1 }),
        ..s1
    }
}

/// Bringing an account that is not unbonding up to date and writing it back
/// keeps the accounts and the ledger in agreement. The account moves on to
/// the end of the ledger where the replay is final, and keeps everything
/// but its two balances and its sequence number.
pub proof fn lemma_sync_wf(s: StateView, i: int, is_final: bool)
    requires
        s.wf(),
        0 <= i < s.accounts.len(),
        s.accounts[i].account.is_active(),
        sync_account_spec(s, s.accounts[i].account, is_final) is Ok,
    ensures
        ({
            let a = s.accounts[i].account;
            let (s1, a1) = sync_account_spec(s, a, is_final)->Ok_0;
            let s2 = synced(s, i, is_final);
            &&& s2.wf_accounts()
            &&& s2.wf_ledger()
            &&& s2.wf_queue()
            &&& !is_final ==> s2.wf_open()
            &&& is_final ==> a1.seq_no == s.ledger_entry_seq_no
            &&& a.seq_no <= a1.seq_no <= s.ledger_entry_seq_no
            &&& a1.is_active()
            &&& a1.delegation == a.delegation
            &&& a1.is_suspended == a.is_suspended
            &&& s1 == (StateView { ledger: s1.ledger, n_ledger_entries: s1.n_ledger_entries, ..s })
        }),
{
    let a = s.accounts[i].account;
    let (s1, a1) = sync_account_spec(s, a, is_final)->Ok_0;
    let s2 = synced(s, i, is_final);
    let upto = sync_target(s.ledger_entry_seq_no, is_final);
    let seq_no = s.ledger_entry_seq_no;
    if s.n_ledger_entries == 0 {
        lemma_empty_ledger(s, i);
        assert(s2.accounts =~= s.accounts);
    } else {
        lemma_replay_keeps(s.ledger, a, upto);
        lemma_release_len(s.ledger, a.seq_no, upto);
        let staker = Staker { address: s.accounts[i].address, account: a1 };
        lemma_total_update(s.accounts, unbonding_weight(), i, staker);
        lemma_total_update(s.accounts, delegation_weight(), i, staker);
        assert forall|j: u128| #[trigger] s2.ledger.dom().contains(j) implies {
            &&& j < s2.ledger_entry_seq_no
            &&& s2.ledger[j].ref_count == behind(s2.accounts, j)
            &&& s2.ledger[j].tag <= s2.n_delegation_mutations
        } by {
            assert(s.ledger.dom().contains(j));
            lemma_total_update(s.accounts, behind_weight(j), i, staker);
        }
        assert forall|j: u128|
            j < s2.ledger_entry_seq_no && #[trigger] behind(s2.accounts, j) >= 1 implies s2.ledger.dom().contains(
            j,
        ) by {
            lemma_total_update(s.accounts, behind_weight(j), i, staker);
            assert(behind(s.accounts, j) >= 1);
            assert(s.ledger.dom().contains(j));
        }
        if !is_final && s2.latest_is_open() {
            assert(s.latest_is_open());
        }
    }
}

/// The accounts and the ledger stay in agreement when an account that is at
/// the end of the ledger is rewritten and stays there, the pool's totals and
/// the count of unbonding accounts follow, and the coalescing tag moves on.
pub proof fn lemma_retouch_wf(s: StateView, i: int, account: StakeAccount, after: StateView)
    requires
        s.wf_accounts(),
        s.wf_ledger(),
        s.wf_queue(),
        0 <= i < s.accounts.len(),
        s.accounts[i].account.is_active(),
        s.accounts[i].account.seq_no == s.ledger_entry_seq_no,
        account.seq_no == s.ledger_entry_seq_no,
        s.n_delegation_mutations < u128::MAX,
        after == (StateView {
            accounts: s.accounts.update(i, Staker { address: s.accounts[i].address, account }),
            pool: after.pool,
            n_stake_accounts_unbonding: after.n_stake_accounts_unbonding,
            n_delegation_mutations: (s.n_delegation_mutations + 1) as u128,
            ..s
        }),
        after.pool.delegation == s.pool.delegation - delegation_weight()(s.accounts[i].account)
            + delegation_weight()(account),
        after.n_stake_accounts_unbonding == s.n_stake_accounts_unbonding - unbonding_weight()(
            s.accounts[i].account,
        ) + unbonding_weight()(account),
    ensures
        after.wf(),
{
    let staker = Staker { address: s.accounts[i].address, account };
    lemma_total_update(s.accounts, unbonding_weight(), i, staker);
    lemma_total_update(s.accounts, delegation_weight(), i, staker);
    assert forall|j: u128| j < s.ledger_entry_seq_no implies behind(after.accounts, j) == behind(
        s.accounts,
        j,
    ) by {
        lemma_total_update(s.accounts, behind_weight(j), i, staker);
    }
    assert forall|j: u128| #[trigger] after.ledger.dom().contains(j) implies {
        &&& j < after.ledger_entry_seq_no
        &&& after.ledger[j].ref_count == behind(after.accounts, j)
        &&& after.ledger[j].tag <= after.n_delegation_mutations
    } by {
        assert(s.ledger.dom().contains(j));
    }
}

/// A valid state stays valid when an account is opened at the end of the
/// ledger under an address that has none and joins the queue, its stake is
/// added to the pool's delegation, and the coalescing tag moves on. The
/// pool's other totals are free.
pub proof fn lemma_open_wf(s: StateView, address: Seq<char>, account: StakeAccount, after: StateView)
    requires
        s.wf(),
        lookup(s.accounts, address) is None,
        account.is_active(),
        account.seq_no == s.ledger_entry_seq_no,
        s.n_delegation_mutations < u128::MAX,
        s.n_stake_accounts < u32::MAX,
        after == (StateView {
            accounts: s.accounts.push(Staker { address, account }),
            pool: after.pool,
            memoization_queue: s.memoization_queue.push(address),
            n_stake_accounts: (s.n_stake_accounts + 1) as u32,
            n_delegation_mutations: (s.n_delegation_mutations + 1) as u128,
            ..s
        }),
        after.pool.delegation == s.pool.delegation + account.delegation,
    ensures
        after.wf(),
{
    let staker = Staker { address, account };
    lemma_lookup(s.accounts, address);
    lemma_total_push(s.accounts, unbonding_weight(), staker);
    lemma_total_push(s.accounts, delegation_weight(), staker);
    assert forall|j: u128| j < s.ledger_entry_seq_no implies behind(after.accounts, j) == behind(
        s.accounts,
        j,
    ) by {
        lemma_total_push(s.accounts, behind_weight(j), staker);
    }
    assert forall|j: u128| #[trigger] after.ledger.dom().contains(j) implies {
        &&& j < after.ledger_entry_seq_no
        &&& after.ledger[j].ref_count == behind(after.accounts, j)
        &&& after.ledger[j].tag <= after.n_delegation_mutations
    } by {
        assert(s.ledger.dom().contains(j));
    }
    assert forall|k: int|
        0 <= k < after.accounts.len() && (
        #[trigger] after.accounts[k]).account.is_active() implies after.memoization_queue.contains(
        after.accounts[k].address,
    ) by {
        if k < s.accounts.len() {
            assert(after.accounts[k] == s.accounts[k]);
            let j = choose|j: int|
                0 <= j < s.memoization_queue.len() && s.memoization_queue[j]
                    == s.accounts[k].address;
            assert(after.memoization_queue[j] == s.accounts[k].address);
        } else {
            assert(after.memoization_queue[s.memoization_queue.len() as int] == address);
        }
    }
}

/// A valid state stays valid when an unbonding account is closed.
pub proof fn lemma_close_wf(s: StateView, i: int)
    requires
        s.wf(),
        0 <= i < s.accounts.len(),
        !s.accounts[i].account.is_active(),
    ensures
        s.n_stake_accounts >= 1,
        s.n_stake_accounts_unbonding >= 1,
        (StateView {
            accounts: s.accounts.remove(i),
            n_stake_accounts: (s.n_stake_accounts - 1) as u32,
            n_stake_accounts_unbonding: (s.n_stake_accounts_unbonding - 1) as u32,
            ..s
        }).wf(),
{
    let after = StateView {
        accounts: s.accounts.remove(i),
        n_stake_accounts: (s.n_stake_accounts - 1) as u32,
        n_stake_accounts_unbonding: (s.n_stake_accounts_unbonding - 1) as u32,
        ..s
    };
    lemma_total_bounds(s.accounts, unbonding_weight());
    assert(unbonding_weight()(s.accounts[i].account) == 1);
    lemma_total_remove(s.accounts, unbonding_weight(), i);
    lemma_total_remove(s.accounts, delegation_weight(), i);
    assert forall|j: u128| behind(after.accounts, j) == behind(s.accounts, j) by {
        lemma_total_remove(s.accounts, behind_weight(j), i);
    }
    assert forall|j: u128| #[trigger] after.ledger.dom().contains(j) implies {
        &&& j < after.ledger_entry_seq_no
        &&& after.ledger[j].ref_count == behind(after.accounts, j)
        &&& after.ledger[j].tag <= after.n_delegation_mutations
    } by {
        assert(s.ledger.dom().contains(j));
    }
    assert forall|k: int| 0 <= k < after.accounts.len() implies (#[trigger] after.accounts[k])
        == s.accounts[if k < i { k } else { k + 1 }] by {}
    assert forall|a: int, b: int| 0 <= a < b < after.accounts.len() implies after.accounts[a].address
        != after.accounts[b].address by {
        assert(after.accounts[a] == s.accounts[if a < i { a } else { a + 1 }]);
        assert(after.accounts[b] == s.accounts[if b < i { b } else { b + 1 }]);
    }
    assert forall|k: int| 0 <= k < after.accounts.len() implies (#[trigger] after.accounts[k]).account.seq_no
        <= after.ledger_entry_seq_no by {
        assert(after.accounts[k] == s.accounts[if k < i { k } else { k + 1 }]);
    }
    if after.latest_is_open() {
        assert forall|k: int|
            0 <= k < after.accounts.len() && (#[trigger] after.accounts[k]).account.is_active() implies after.accounts[k].account.seq_no
            < after.ledger_entry_seq_no by {
            assert(after.accounts[k] == s.accounts[if k < i { k } else { k + 1 }]);
        }
    }
}

/// A valid state stays valid whatever the pool's liquidity, dividends and
/// taxes.
pub proof fn lemma_totals_wf(s: StateView, after: StateView)
    requires
        s.wf(),
        after == (StateView { pool: after.pool, ..s }),
        after.pool.delegation == s.pool.delegation,
    ensures
        after.wf(),
{
}

/// Validity rests on the owner of no client, on no record of the rate
/// limiter and on no event: a state that differs from a valid one in these
/// alone, and counts its clients, is valid.
pub proof fn lemma_wf_frame(s: StateView, after: StateView)
    requires
        s.wf(),
        after.n_clients == after.clients.len(),
        after == (StateView {
            owner: after.owner,
            usage: after.usage,
            clients: after.clients,
            n_clients: after.n_clients,
            events: after.events,
            streams: after.streams,
            total_stream_revenue: after.total_stream_revenue,
            client_execution_counts: after.client_execution_counts,
            bank_accounts: after.bank_accounts,
            ..s
        }),
    ensures
        after.wf(),
{
}

/// Staking keeps a valid state valid.
pub proof fn lemma_stake_core_wf(s: StateView, address: Seq<char>, amount: u128)
    requires
        s.wf(),
        stake_core(s, address, amount) is Ok,
    ensures
        stake_core(s, address, amount)->Ok_0.wf(),
{
    let after = stake_core(s, address, amount)->Ok_0;
    lemma_lookup(s.accounts, address);
    match lookup(s.accounts, address) {
        Some(i) => {
            lemma_sync_wf(s, i, true);
            let (s1, a1) = sync_account_spec(s, s.accounts[i].account, true)->Ok_0;
            let s2 = synced(s, i, true);
            let a2 = staked(a1, amount);
            assert(after.accounts =~= s2.accounts.update(i, Staker { address, account: a2 }));
            lemma_retouch_wf(s2, i, a2, after);
        },
        None => {
            lemma_open_wf(s, address, after.accounts.last().account, after);
        },
    }
}

/// Unstaking keeps a valid state valid.
pub proof fn lemma_unstake_core_wf(s: StateView, address: Seq<char>, now: Timestamp)
    requires
        s.wf(),
        unstake_core(s, address, now) is Ok,
    ensures
        unstake_core(s, address, now)->Ok_0.0.wf(),
{
    let after = unstake_core(s, address, now)->Ok_0.0;
    lemma_lookup(s.accounts, address);
    let i = lookup(s.accounts, address)->Some_0;
    lemma_sync_wf(s, i, true);
    let (s1, a1) = sync_account_spec(s, s.accounts[i].account, true)->Ok_0;
    let s2 = synced(s, i, true);
    let a2 = after.accounts[i].account;
    assert(after.accounts =~= s2.accounts.update(i, Staker { address, account: a2 }));
    lemma_total_bounds(s2.accounts, delegation_weight());
    assert(delegation_weight()(s2.accounts[i].account) == a1.delegation);
    lemma_total_bounds(s2.accounts, active_weight());
    assert(active_weight()(s2.accounts[i].account) == 1);
    lemma_active_and_unbonding(s2.accounts);
    lemma_retouch_wf(s2, i, a2, after);
}

/// In a valid state an account that is not unbonding has staked no more
/// than the pool's delegation, and the count of unbonding accounts is below
/// the count of all.
pub proof fn lemma_active_account(s: StateView, i: int)
    requires
        s.wf_accounts(),
        0 <= i < s.accounts.len(),
        s.accounts[i].account.is_active(),
    ensures
        s.accounts[i].account.delegation <= s.pool.delegation,
        s.n_stake_accounts_unbonding < s.n_stake_accounts,
{
    lemma_total_bounds(s.accounts, delegation_weight());
    assert(delegation_weight()(s.accounts[i].account) == s.accounts[i].account.delegation);
    lemma_total_bounds(s.accounts, active_weight());
    assert(active_weight()(s.accounts[i].account) == 1);
    lemma_active_and_unbonding(s.accounts);
}

/// Claiming keeps a valid state valid.
pub proof fn lemma_claim_core_wf(s: StateView, address: Seq<char>)
    requires
        s.wf(),
        claim_core(s, address) is Ok,
    ensures
        claim_core(s, address)->Ok_0.0.wf(),
{
    let after = claim_core(s, address)->Ok_0.0;
    lemma_lookup(s.accounts, address);
    let i = lookup(s.accounts, address)->Some_0;
    lemma_sync_wf(s, i, true);
    let s2 = synced(s, i, true);
    let a2 = after.accounts[i].account;
    assert(after.accounts =~= s2.accounts.update(i, Staker { address, account: a2 }));
    lemma_retouch_wf(s2, i, a2, after);
}

/// Withdrawing keeps a valid state valid.
pub proof fn lemma_withdraw_core_wf(s: StateView, address: Seq<char>, now: Timestamp)
    requires
        s.wf(),
        withdraw_core(s, address, now) is Ok,
    ensures
        withdraw_core(s, address, now)->Ok_0.0.wf(),
{
    lemma_lookup(s.accounts, address);
    let i = lookup(s.accounts, address)->Some_0;
    lemma_close_wf(s, i);
}

/// Taking in revenue keeps a valid state valid.
pub proof fn lemma_receive_core_wf(s: StateView, revenue: u128)
    requires
        s.wf(),
        receive_core(s, revenue) is Ok,
    ensures
        receive_core(s, revenue)->Ok_0.wf(),
{
    let (tax, restaked, dividends) = revenue_split(s, revenue);
    lemma_upsert_wf(s, restaked as u128, dividends as u128, 0);
    let s1 = upsert_spec(s, restaked as u128, dividends as u128, 0)->Ok_0.0;
    lemma_totals_wf(s1, receive_core(s, revenue)->Ok_0);
}

/// Paying out keeps a valid state valid.
pub proof fn lemma_send_core_wf(s: StateView, payment: u128)
    requires
        s.wf(),
        send_core(s, payment) is Ok,
    ensures
        send_core(s, payment)->Ok_0.wf(),
{
    lemma_upsert_wf(s, 0, 0, payment);
    let s1 = upsert_spec(s, 0, 0, payment)->Ok_0.0;
    lemma_totals_wf(s1, send_core(s, payment)->Ok_0);
}

/// The state after the queue has been turned once and before anything is
/// replayed: the address at the front has left the queue and, where its
/// account is not unbonding, joined the back again.
pub open spec fn turned(s: StateView) -> StateView {
    if s.memoization_queue.len() == 0 {
        s
    } else {
        let address = s.memoization_queue[0];
        let rest = s.memoization_queue.drop_first();
        let kept = lookup(s.accounts, address) is Some && s.accounts[lookup(
            s.accounts,
            address,
        )->Some_0].account.is_active();
        StateView {
            memoization_queue: if kept {
                rest.push(address)
            } else {
                rest
            },
            ..s
        }
    }
}

/// Turning the queue keeps a valid state valid: no account that is not
/// unbonding loses its place in the queue for good.
pub proof fn lemma_turned_wf(s: StateView)
    requires
        s.wf(),
    ensures
        turned(s).wf(),
{
    if s.memoization_queue.len() > 0 {
        let address = s.memoization_queue[0];
        let rest = s.memoization_queue.drop_first();
        lemma_lookup(s.accounts, address);
        assert forall|k: int|
            0 <= k < s.accounts.len() && (
            #[trigger] s.accounts[k]).account.is_active() implies turned(
            s,
        ).memoization_queue.contains(s.accounts[k].address) by {
            let j = choose|j: int|
                0 <= j < s.memoization_queue.len() && s.memoization_queue[j]
                    == s.accounts[k].address;
            if j == 0 {
                lemma_lookup_distinct(s.accounts, k);
                assert(turned(s).memoization_queue[rest.len() as int] == address);
            } else {
                assert(turned(s).memoization_queue[j - 1] == s.accounts[k].address);
            }
        }
    }
}

/// A turn of the queue keeps a valid state valid.
pub proof fn lemma_amortize_step_wf(s: StateView)
    requires
        s.wf(),
        amortize_step(s) is Ok,
    ensures
        amortize_step(s)->Ok_0.0.wf(),
{
    lemma_turned_wf(s);
    if s.memoization_queue.len() > 0 {
        let address = s.memoization_queue[0];
        lemma_lookup(s.accounts, address);
        match lookup(s.accounts, address) {
            Some(i) => {
                let account = s.accounts[i].account;
                if account.is_active() && account.seq_no < s.ledger_entry_seq_no {
                    lemma_sync_wf(turned(s), i, false);
                }
            },
            None => {},
        }
    }
}

/// The replay in passing keeps a valid state valid.
pub proof fn lemma_amortize_wf(s: StateView)
    requires
        s.wf(),
        amortize_spec(s) is Ok,
    ensures
        amortize_spec(s)->Ok_0.wf(),
{
    lemma_amortize_step_wf(s);
    let (s1, done) = amortize_step(s)->Ok_0;
    if !done {
        lemma_amortize_step_wf(s1);
    }
}

} // verus!
