//! No account moves back in the ledger and no entry comes back to it.
use vstd::prelude::*;

use crate::execute::process::Flow;
use crate::execute::process::amount_of;
use crate::execute::process::flow_of;
use crate::execute::process::limits_spec;
use crate::execute::process::noted_usage;
use crate::execute::process::settle_spec;
use crate::execute::process::spend_budget;
use crate::execute::process::uses_up;
use crate::execute::receive::booked;
use crate::laws::Operation;
use crate::laws::apply;
use crate::ledger::lemma_replay_keeps;
use crate::ledger::sync_target;
use crate::models::StakeAccount;
use crate::models::Timestamp;
use crate::table::lemma_position;
use crate::table::position;
use crate::transition::amortize_spec;
use crate::transition::amortize_step;
use crate::transition::claim_core;
use crate::transition::receive_core;
use crate::transition::revenue_split;
use crate::transition::send_core;
use crate::transition::stake_core;
use crate::transition::sync_account_spec;
use crate::transition::unstake_core;
use crate::transition::upsert_spec;
use crate::transition::withdraw_core;
use crate::validity::lemma_amortize_step_wf;
use crate::validity::lemma_claim_core_wf;
use crate::validity::lemma_receive_core_wf;
use crate::validity::lemma_send_core_wf;
use crate::validity::lemma_stake_core_wf;
use crate::validity::lemma_unstake_core_wf;
use crate::validity::lemma_withdraw_core_wf;
use crate::validity::turned;
use crate::view::StateView;
use crate::view::lemma_lookup;
use crate::view::lookup;

verus! {

/// The accounts of `after` are those of `before`, in the same order, and
/// none of them is further back in the ledger.
pub open spec fn keeps_pace(before: StateView, after: StateView) -> bool {
    &&& before.ledger_entry_seq_no <= after.ledger_entry_seq_no
    &&& before.accounts.len() == after.accounts.len()
    &&& forall|k: int|
        0 <= k < before.accounts.len() ==> {
            &&& (#[trigger] after.accounts[k]).address == before.accounts[k].address
            &&& before.accounts[k].account.seq_no <= after.accounts[k].account.seq_no
        }
}

/// No account is further back in the ledger in `after` than the account
/// under the same address was in `before`, and the ledger has not shrunk
/// at its end.
pub open spec fn cursors_advance(before: StateView, after: StateView) -> bool {
    &&& before.ledger_entry_seq_no <= after.ledger_entry_seq_no
    &&& forall|i: int, j: int|
        0 <= i < before.accounts.len() && 0 <= j < after.accounts.len() && (
        #[trigger] before.accounts[i]).address == (#[trigger] after.accounts[j]).address
            ==> before.accounts[i].account.seq_no <= after.accounts[j].account.seq_no
}

/// Of the entries that `before` could hold, `after` holds none that
/// `before` did not, none with a higher count, and none with a count of
/// zero that had a positive count in `before`.
pub open spec fn ledger_ages(before: StateView, after: StateView) -> bool {
    &&& before.ledger_entry_seq_no <= after.ledger_entry_seq_no
    &&& forall|i: u128|
        i < before.ledger_entry_seq_no && #[trigger] after.ledger.dom().contains(i) ==> {
            &&& before.ledger.dom().contains(i)
            &&& after.ledger[i].ref_count <= before.ledger[i].ref_count
            &&& before.ledger[i].ref_count >= 1 ==> after.ledger[i].ref_count >= 1
        }
}

/// Keeping pace is advancing, where no address has two accounts.
pub proof fn lemma_pace_advances(before: StateView, after: StateView)
    requires
        before.wf(),
        keeps_pace(before, after),
    ensures
        cursors_advance(before, after),
{
    assert forall|i: int, j: int|
        0 <= i < before.accounts.len() && 0 <= j < after.accounts.len() && (
        #[trigger] before.accounts[i]).address == (
        #[trigger] after.accounts[j]).address implies before.accounts[i].account.seq_no
        <= after.accounts[j].account.seq_no by {
        assert(after.accounts[j].address == before.accounts[j].address);
        if i < j {
            assert(before.accounts[i].address != before.accounts[j].address);
        }
        if j < i {
            assert(before.accounts[j].address != before.accounts[i].address);
        }
    }
}

/// Advancing and then keeping pace is advancing.
pub proof fn lemma_advance_then_pace(before: StateView, mid: StateView, after: StateView)
    requires
        cursors_advance(before, mid),
        keeps_pace(mid, after),
    ensures
        cursors_advance(before, after),
{
    assert forall|i: int, j: int|
        0 <= i < before.accounts.len() && 0 <= j < after.accounts.len() && (
        #[trigger] before.accounts[i]).address == (
        #[trigger] after.accounts[j]).address implies before.accounts[i].account.seq_no
        <= after.accounts[j].account.seq_no by {
        assert(after.accounts[j].address == mid.accounts[j].address);
        assert(before.accounts[i].address == mid.accounts[j].address);
    }
}

/// A ledger that ages twice has aged.
pub proof fn lemma_ages_twice(before: StateView, mid: StateView, after: StateView)
    requires
        ledger_ages(before, mid),
        ledger_ages(mid, after),
    ensures
        ledger_ages(before, after),
{
    assert forall|i: u128|
        i < before.ledger_entry_seq_no && #[trigger] after.ledger.dom().contains(i) implies {
        &&& before.ledger.dom().contains(i)
        &&& after.ledger[i].ref_count <= before.ledger[i].ref_count
        &&& before.ledger[i].ref_count >= 1 ==> after.ledger[i].ref_count >= 1
    } by {
        assert(mid.ledger.dom().contains(i));
    }
}

/// Bringing an account up to date ages the ledger and moves the account
/// forward or not at all.
pub proof fn lemma_sync_follows(s: StateView, account: StakeAccount, is_final: bool)
    requires
        sync_account_spec(s, account, is_final) is Ok,
        account.seq_no <= s.ledger_entry_seq_no,
    ensures
        ledger_ages(s, sync_account_spec(s, account, is_final)->Ok_0.0),
        sync_account_spec(s, account, is_final)->Ok_0.0.accounts == s.accounts,
        account.seq_no <= sync_account_spec(s, account, is_final)->Ok_0.1.seq_no
            <= s.ledger_entry_seq_no,
{
    if s.n_ledger_entries != 0 {
        lemma_replay_keeps(s.ledger, account, sync_target(s.ledger_entry_seq_no, is_final));
    }
}

/// A turn of the queue ages the ledger and lets the accounts keep pace.
pub proof fn lemma_amortize_step_follows(s: StateView)
    requires
        s.wf(),
        amortize_step(s) is Ok,
    ensures
        ledger_ages(s, amortize_step(s)->Ok_0.0),
        keeps_pace(s, amortize_step(s)->Ok_0.0),
{
    if s.memoization_queue.len() > 0 {
        let address = s.memoization_queue[0];
        lemma_lookup(s.accounts, address);
        match lookup(s.accounts, address) {
            Some(i) => {
                let account = s.accounts[i].account;
                if account.is_active() && account.seq_no < s.ledger_entry_seq_no {
                    lemma_sync_follows(turned(s), account, false);
                }
            },
            None => {},
        }
    }
}

/// The replay in passing ages the ledger and lets the accounts keep pace.
pub proof fn lemma_amortize_follows(s: StateView)
    requires
        s.wf(),
        amortize_spec(s) is Ok,
    ensures
        ledger_ages(s, amortize_spec(s)->Ok_0),
        keeps_pace(s, amortize_spec(s)->Ok_0),
{
    lemma_amortize_step_follows(s);
    let (s1, done) = amortize_step(s)->Ok_0;
    if !done {
        lemma_amortize_step_wf(s);
        lemma_amortize_step_follows(s1);
        lemma_ages_twice(s, s1, amortize_spec(s)->Ok_0);
    }
}

/// Writing a change to the ledger ages it and leaves the accounts alone.
pub proof fn lemma_upsert_follows(
    s: StateView,
    delta_revenue: u128,
    delta_dividends: u128,
    delta_loss: u128,
)
    requires
        s.wf(),
        upsert_spec(s, delta_revenue, delta_dividends, delta_loss) is Ok,
    ensures
        ledger_ages(s, upsert_spec(s, delta_revenue, delta_dividends, delta_loss)->Ok_0.0),
        upsert_spec(s, delta_revenue, delta_dividends, delta_loss)->Ok_0.0.accounts
            == s.accounts,
{
}

/// An operation followed by the replay in passing ages the ledger and
/// advances the accounts if the operation does.
pub proof fn lemma_then_amortize_follows(s: StateView, core: StateView)
    requires
        core.wf(),
        ledger_ages(s, core),
        cursors_advance(s, core),
        amortize_spec(core) is Ok,
    ensures
        ledger_ages(s, amortize_spec(core)->Ok_0),
        cursors_advance(s, amortize_spec(core)->Ok_0),
{
    lemma_amortize_follows(core);
    lemma_ages_twice(s, core, amortize_spec(core)->Ok_0);
    lemma_advance_then_pace(s, core, amortize_spec(core)->Ok_0);
}

/// Staking ages the ledger and advances the accounts.
pub proof fn lemma_stake_follows(s: StateView, address: Seq<char>, amount: u128)
    requires
        s.wf(),
        stake_core(s, address, amount) is Ok,
    ensures
        ledger_ages(s, stake_core(s, address, amount)->Ok_0),
        cursors_advance(s, stake_core(s, address, amount)->Ok_0),
{
    let core = stake_core(s, address, amount)->Ok_0;
    lemma_lookup(s.accounts, address);
    match lookup(s.accounts, address) {
        Some(i) => {
            lemma_sync_follows(s, s.accounts[i].account, true);
            lemma_pace_advances(s, core);
        },
        None => {},
    }
}

/// Unstaking ages the ledger and advances the accounts.
pub proof fn lemma_unstake_follows(s: StateView, address: Seq<char>, now: Timestamp)
    requires
        s.wf(),
        unstake_core(s, address, now) is Ok,
    ensures
        ledger_ages(s, unstake_core(s, address, now)->Ok_0.0),
        cursors_advance(s, unstake_core(s, address, now)->Ok_0.0),
{
    lemma_lookup(s.accounts, address);
    let i = lookup(s.accounts, address)->Some_0;
    lemma_sync_follows(s, s.accounts[i].account, true);
    lemma_pace_advances(s, unstake_core(s, address, now)->Ok_0.0);
}

/// Claiming ages the ledger and advances the accounts.
pub proof fn lemma_claim_follows(s: StateView, address: Seq<char>)
    requires
        s.wf(),
        claim_core(s, address) is Ok,
    ensures
        ledger_ages(s, claim_core(s, address)->Ok_0.0),
        cursors_advance(s, claim_core(s, address)->Ok_0.0),
{
    lemma_lookup(s.accounts, address);
    let i = lookup(s.accounts, address)->Some_0;
    lemma_sync_follows(s, s.accounts[i].account, true);
    lemma_pace_advances(s, claim_core(s, address)->Ok_0.0);
}

/// Withdrawing leaves the ledger alone and advances the accounts.
pub proof fn lemma_withdraw_follows(s: StateView, address: Seq<char>, now: Timestamp)
    requires
        s.wf(),
        withdraw_core(s, address, now) is Ok,
    ensures
        ledger_ages(s, withdraw_core(s, address, now)->Ok_0.0),
        cursors_advance(s, withdraw_core(s, address, now)->Ok_0.0),
{
    lemma_lookup(s.accounts, address);
    let i = lookup(s.accounts, address)->Some_0;
    let core = withdraw_core(s, address, now)->Ok_0.0;
    assert forall|k: int| 0 <= k < core.accounts.len() implies (#[trigger] core.accounts[k])
        == s.accounts[if k < i { k } else { k + 1 }] by {}
    assert forall|a: int, b: int|
        0 <= a < s.accounts.len() && 0 <= b < core.accounts.len() && (
        #[trigger] s.accounts[a]).address == (
        #[trigger] core.accounts[b]).address implies s.accounts[a].account.seq_no
        <= core.accounts[b].account.seq_no by {
        let k = if b < i { b } else { b + 1 };
        assert(core.accounts[b] == s.accounts[k]);
        if a < k {
            assert(s.accounts[a].address != s.accounts[k].address);
        }
        if k < a {
            assert(s.accounts[k].address != s.accounts[a].address);
        }
    }
}

/// Settling a job ages the ledger and advances the accounts.
pub proof fn lemma_settle_follows(s: StateView, i: int, budget: Option<u128>, used_up: bool, flow: Flow)
    requires
        s.wf(),
        0 <= i < s.clients.len(),
        settle_spec(s, i, budget, used_up, flow) is Ok,
    ensures
        ledger_ages(s, settle_spec(s, i, budget, used_up, flow)->Ok_0),
        cursors_advance(s, settle_spec(s, i, budget, used_up, flow)->Ok_0),
{
    lemma_pace_advances(s, s);
    match flow {
        Flow::Nothing => {},
        Flow::Send(payment) => {
            lemma_send_core_wf(s, payment);
            lemma_upsert_follows(s, 0, 0, payment);
            let core = send_core(s, payment)->Ok_0;
            lemma_pace_advances(s, core);
            lemma_then_amortize_follows(s, core);
        },
        Flow::Receive(revenue) => {
            lemma_receive_core_wf(s, revenue);
            let (tax, restaked, dividends) = revenue_split(s, revenue);
            lemma_upsert_follows(s, restaked as u128, dividends as u128, 0);
            let core = receive_core(s, revenue)->Ok_0;
            lemma_pace_advances(s, core);
            lemma_then_amortize_follows(s, core);
        },
    }
}

/// Every operation ages the ledger and advances the accounts.
pub proof fn lemma_apply_follows(s: StateView, op: Operation)
    requires
        s.wf(),
        apply(s, op) is Ok,
    ensures
        ledger_ages(s, apply(s, op)->Ok_0),
        cursors_advance(s, apply(s, op)->Ok_0),
{
    match op {
        Operation::Stake { address, amount } => {
            lemma_stake_core_wf(s, address, amount);
            lemma_stake_follows(s, address, amount);
            lemma_then_amortize_follows(s, stake_core(s, address, amount)->Ok_0);
        },
        Operation::Unstake { address, now } => {
            lemma_unstake_core_wf(s, address, now);
            lemma_unstake_follows(s, address, now);
            lemma_then_amortize_follows(s, unstake_core(s, address, now)->Ok_0.0);
        },
        Operation::Claim { address } => {
            lemma_claim_core_wf(s, address);
            lemma_claim_follows(s, address);
            lemma_then_amortize_follows(s, claim_core(s, address)->Ok_0.0);
        },
        Operation::Withdraw { address, now } => {
            lemma_withdraw_core_wf(s, address, now);
            lemma_withdraw_follows(s, address, now);
            lemma_then_amortize_follows(s, withdraw_core(s, address, now)->Ok_0.0);
        },
        Operation::Receive { sender, now, revenue } => {
            lemma_receive_core_wf(s, revenue);
            let (tax, restaked, dividends) = revenue_split(s, revenue);
            lemma_upsert_follows(s, restaked as u128, dividends as u128, 0);
            let core = booked(s, sender, now, revenue);
            lemma_pace_advances(s, core);
            lemma_then_amortize_follows(s, core);
        },
        Operation::Process { block, client_address, initiator, incoming, outgoing } => {
            lemma_position(s.clients, client_address@);
            let i = position(s.clients, client_address@)->Some_0;
            lemma_pace_advances(s, s);
            if incoming is None && outgoing is None {
                lemma_then_amortize_follows(s, s);
            } else {
                let client = s.clients[i].value;
                let budget = spend_budget(client.config.budget, outgoing)->Ok_0;
                let held = limits_spec(
                    s,
                    block,
                    client_address@,
                    initiator@,
                    amount_of(incoming),
                    if budget is None && outgoing is Some {
                        Some(amount_of(outgoing))
                    } else {
                        None
                    },
                    client.config.rate_limit,
                )->Ok_0;
                if !(held.client_triggered || held.initiator_triggered) {
                    let noted = StateView {
                        usage: noted_usage(
                            s.usage,
                            client_address@,
                            initiator@,
                            held.of_client,
                            held.of_initiator,
                        ),
                        ..s
                    };
                    lemma_settle_follows(
                        noted,
                        i,
                        budget,
                        uses_up(client.config.budget, outgoing),
                        flow_of(amount_of(incoming), outgoing),
                    );
                }
            }
        },
        Operation::Amortize => {
            lemma_then_amortize_follows(s, s);
        },
        Operation::Deposit { sender, amount } => {
            lemma_pace_advances(s, s);
            lemma_then_amortize_follows(s, s);
        },
        Operation::WithdrawBalance { sender, amount } => {
            lemma_pace_advances(s, s);
            lemma_then_amortize_follows(s, s);
        },
        Operation::PayTaxes { sender, acl_allows } => {
            lemma_pace_advances(s, apply(s, op)->Ok_0);
        },
        Operation::Migrate { msg } => {
            lemma_pace_advances(s, apply(s, op)->Ok_0);
        },
    }
}

} // verus!
