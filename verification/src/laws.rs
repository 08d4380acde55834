//! What holds of every operation and of every valid state.
use vstd::prelude::*;

use crate::coalescing::Receipt;
use crate::coalescing::dividends_sum;
use crate::coalescing::lemma_receive_coalesces;
use crate::coalescing::open_deltas;
use crate::coalescing::open_entry;
use crate::coalescing::receive_all;
use crate::coalescing::restaked_sum;
use crate::conservation::conserved;
use crate::conservation::dividends_outlook;
use crate::conservation::lemma_amortize_conserved;
use crate::conservation::lemma_claim_conserved;
use crate::conservation::lemma_conserved_frame;
use crate::conservation::lemma_part_bound;
use crate::conservation::lemma_parts_add;
use crate::conservation::lemma_parts_total;
use crate::conservation::lemma_pruned_conserved;
use crate::conservation::lemma_receive_conserved;
use crate::conservation::lemma_stake_conserved;
use crate::conservation::lemma_unstake_conserved;
use crate::conservation::lemma_withdraw_conserved;
use crate::conservation::liquidity_outlook;
use crate::conservation::loss_free;
use crate::conservation::part;
use crate::error::ContractError;
use crate::execute::credit::deposit::deposit_spec;
use crate::execute::credit::withdraw::withdraw_spec;
use crate::execute::process::process_spec;
use crate::execute::receive::booked;
use crate::execute::receive::receive_spec;
use crate::execute::taxes::pay_taxes_spec;
use crate::ledger::lemma_replay_keeps;
use crate::ledger::replay_entry;
use crate::ledger::share;
use crate::ledger::sync_target;
use crate::migrations::lemma_pruned_wf;
use crate::migrations::migrate_spec;
use crate::migrations::pruned;
use crate::models::AccountTokenAmount;
use crate::models::BlockInfo;
use crate::models::Config;
use crate::models::LedgerEntry;
use crate::models::Owner;
use crate::models::StakeAccount;
use crate::models::Timestamp;
use crate::models::Token;
use crate::msg::MigrateMsg;
use crate::progress::cursors_advance;
use crate::progress::lemma_apply_follows;
use crate::settling::lemma_amortize_keeps_clients;
use crate::settling::lemma_process_conserved;
use crate::settling::lemma_process_hale;
use crate::settling::lemma_process_wf;
use crate::solvency::hale;
use crate::solvency::lemma_amortize_hale;
use crate::solvency::lemma_claim_hale;
use crate::solvency::lemma_receive_hale;
use crate::solvency::lemma_replay_succeeds;
use crate::solvency::lemma_stake_hale;
use crate::solvency::lemma_unstake_hale;
use crate::solvency::lemma_withdraw_hale;
use crate::solvency::solvent;
use crate::transition::amortize_spec;
use crate::transition::amortize_step;
use crate::transition::claim_core;
use crate::transition::has_unbonded;
use crate::transition::receive_core;
use crate::transition::revenue_split;
use crate::transition::stake_core;
use crate::transition::sync_account_spec;
use crate::transition::then_amortize;
use crate::transition::then_amortize_paying;
use crate::transition::unstake_core;
use crate::transition::withdraw_core;
use crate::validity::lemma_amortize_wf;
use crate::validity::lemma_claim_core_wf;
use crate::validity::lemma_empty_ledger;
use crate::validity::lemma_receive_core_wf;
use crate::validity::lemma_stake_core_wf;
use crate::validity::lemma_sync_wf;
use crate::validity::lemma_totals_wf;
use crate::validity::lemma_turned_wf;
use crate::validity::lemma_unstake_core_wf;
use crate::validity::lemma_wf_frame;
use crate::validity::lemma_withdraw_core_wf;
use crate::validity::turned;
use crate::view::Staker;
use crate::view::StateView;
use crate::view::behind;
use crate::view::delegation_weight;
use crate::view::dividends_weight;
use crate::view::lemma_lookup;
use crate::view::lemma_total_bounds;
use crate::view::lemma_total_same;
use crate::view::liquidity_weight;
use crate::view::lookup;
use crate::view::total;

verus! {

/// The operations that touch the accounts, the ledger or the pool's
/// totals.
pub enum Operation {
    Stake { address: Seq<char>, amount: u128 },
    Unstake { address: Seq<char>, now: Timestamp },
    Claim { address: Seq<char> },
    Withdraw { address: Seq<char>, now: Timestamp },
    Receive { sender: Seq<char>, now: Timestamp, revenue: u128 },
    Process {
        block: BlockInfo,
        client_address: String,
        initiator: String,
        incoming: Option<AccountTokenAmount>,
        outgoing: Option<AccountTokenAmount>,
    },
    Amortize,
    Deposit { sender: Seq<char>, amount: u128 },
    WithdrawBalance { sender: Seq<char>, amount: Option<u128> },
    PayTaxes { sender: Seq<char>, acl_allows: bool },
    Migrate { msg: MigrateMsg },
}

/// The state after an operation, or why the operation is refused. This is
/// what the functions of the same names promise.
pub open spec fn apply(s: StateView, op: Operation) -> Result<StateView, ContractError> {
    match op {
        Operation::Stake { address, amount } => then_amortize(stake_core(s, address, amount)),
        Operation::Unstake { address, now } => match then_amortize_paying(
            unstake_core(s, address, now),
        ) {
            Err(e) => Err(e),
            Ok((s1, _)) => Ok(s1),
        },
        Operation::Claim { address } => match then_amortize_paying(claim_core(s, address)) {
            Err(e) => Err(e),
            Ok((s1, _)) => Ok(s1),
        },
        Operation::Withdraw { address, now } => match then_amortize_paying(
            withdraw_core(s, address, now),
        ) {
            Err(e) => Err(e),
            Ok((s1, _)) => Ok(s1),
        },
        Operation::Receive { sender, now, revenue } => receive_spec(s, sender, now, revenue),
        Operation::Process { block, client_address, initiator, incoming, outgoing } => match process_spec(
            s,
            block,
            client_address,
            initiator,
            incoming,
            outgoing,
        ) {
            Err(e) => Err(e),
            Ok((s1, _)) => Ok(s1),
        },
        Operation::Amortize => amortize_spec(s),
        Operation::Deposit { sender, amount } => deposit_spec(s, sender, amount),
        Operation::WithdrawBalance { sender, amount } => withdraw_spec(s, sender, amount),
        Operation::PayTaxes { sender, acl_allows } => match pay_taxes_spec(
            s,
            sender,
            acl_allows,
        ) {
            Err(e) => Err(e),
            Ok((s1, _)) => Ok(s1),
        },
        Operation::Migrate { msg } => migrate_spec(s, msg),
    }
}

/// Every operation keeps a valid state valid.
pub proof fn law_validity(s: StateView, op: Operation)
    requires
        s.wf(),
        apply(s, op) is Ok,
    ensures
        apply(s, op)->Ok_0.wf(),
{
    match op {
        Operation::Stake { address, amount } => {
            lemma_stake_core_wf(s, address, amount);
            lemma_amortize_wf(stake_core(s, address, amount)->Ok_0);
        },
        Operation::Unstake { address, now } => {
            lemma_unstake_core_wf(s, address, now);
            lemma_amortize_wf(unstake_core(s, address, now)->Ok_0.0);
        },
        Operation::Claim { address } => {
            lemma_claim_core_wf(s, address);
            lemma_amortize_wf(claim_core(s, address)->Ok_0.0);
        },
        Operation::Withdraw { address, now } => {
            lemma_withdraw_core_wf(s, address, now);
            lemma_amortize_wf(withdraw_core(s, address, now)->Ok_0.0);
        },
        Operation::Receive { sender, now, revenue } => {
            lemma_receive_core_wf(s, revenue);
            let s1 = receive_core(s, revenue)->Ok_0;
            lemma_amortize_wf(
                booked(s, sender, now, revenue),
            );
        },
        Operation::Process { block, client_address, initiator, incoming, outgoing } => {
            lemma_process_wf(s, block, client_address, initiator, incoming, outgoing);
        },
        Operation::Amortize => {
            lemma_amortize_wf(s);
        },
        Operation::Deposit { sender, amount } => {
            lemma_amortize_wf(s);
            lemma_amortize_keeps_clients(s);
            lemma_wf_frame(amortize_spec(s)->Ok_0, apply(s, op)->Ok_0);
        },
        Operation::WithdrawBalance { sender, amount } => {
            lemma_amortize_wf(s);
            lemma_amortize_keeps_clients(s);
            lemma_wf_frame(amortize_spec(s)->Ok_0, apply(s, op)->Ok_0);
        },
        Operation::PayTaxes { sender, acl_allows } => {
            lemma_totals_wf(s, apply(s, op)->Ok_0);
        },
        Operation::Migrate { msg } => {
            if msg is V0_0_4 {
                lemma_pruned_wf(s);
            } else {
                lemma_wf_frame(s, apply(s, op)->Ok_0);
            }
        },
    }
}

/// Two accounts with the same liquidity take the same shares of an entry:
/// the same gain, the same loss and the same dividends.
pub proof fn law_equal_liquidity_equal_shares(
    first: StakeAccount,
    second: StakeAccount,
    entry: LedgerEntry,
)
    requires
        first.liquidity == second.liquidity,
        replay_entry(first, entry) is Ok,
    ensures
        replay_entry(second, entry) is Ok || second.dividends + share(
            entry.delta_dividends,
            second.liquidity,
            entry.liquidity,
        ) > u128::MAX,
        replay_entry(second, entry) is Ok ==> {
            &&& replay_entry(second, entry)->Ok_0.liquidity == replay_entry(
                first,
                entry,
            )->Ok_0.liquidity
            &&& replay_entry(second, entry)->Ok_0.dividends - second.dividends == replay_entry(
                first,
                entry,
            )->Ok_0.dividends - first.dividends
        },
{
}

/// An account with more liquidity takes no smaller a share of any delta.
pub proof fn law_shares_grow_with_liquidity(delta: u128, smaller: u128, larger: u128, snapshot: u128)
    requires
        smaller <= larger,
        snapshot > 0,
    ensures
        share(delta, smaller, snapshot) <= share(delta, larger, snapshot),
{
    let d = delta as int;
    let a = smaller as int;
    let b = larger as int;
    let n = snapshot as int;
    assert((d * a) / n <= (d * b) / n) by (nonlinear_arith)
        requires
            0 <= d,
            0 <= a <= b,
            n > 0,
    ;
}

/// No share of a delta is more than the delta, for an account that holds no
/// more than the pool did.
pub proof fn law_share_is_a_part(delta: u128, liquidity: u128, snapshot: u128)
    requires
        liquidity <= snapshot,
        snapshot > 0,
    ensures
        0 <= share(delta, liquidity, snapshot) <= delta,
{
    let d = delta as int;
    let a = liquidity as int;
    let n = snapshot as int;
    assert(0 <= (d * a) / n <= d) by (nonlinear_arith)
        requires
            0 <= d,
            0 <= a <= n,
            n > 0,
    ;
}

/// Staking into an unbonding account and claiming from one are always
/// refused with `NotYetUnbonding`, whatever the amount.
pub proof fn law_unbonding_refuses_stake_and_claim(s: StateView, address: Seq<char>, amount: u128)
    requires
        lookup(s.accounts, address) is Some,
        !s.accounts[lookup(s.accounts, address)->Some_0].account.is_active(),
    ensures
        apply(s, Operation::Stake { address, amount }) == Err::<StateView, ContractError>(
            ContractError::NotYetUnbonding,
        ),
        apply(s, Operation::Claim { address }) == Err::<StateView, ContractError>(
            ContractError::NotYetUnbonding,
        ),
{
}

/// Withdrawing before the unbonding period has passed is always refused
/// with `StillUnbonding`, and unstaking while unbonding with
/// `AlreadyUnbonding`.
pub proof fn law_unbonding_refuses_early_withdrawal(s: StateView, address: Seq<char>, now: Timestamp)
    requires
        lookup(s.accounts, address) is Some,
        !s.accounts[lookup(s.accounts, address)->Some_0].account.is_active(),
    ensures
        !has_unbonded(
            s.accounts[lookup(s.accounts, address)->Some_0].account.unbonding->Some_0,
            s.config.unbonding_seconds,
            now,
        ) ==> apply(s, Operation::Withdraw { address, now }) == Err::<StateView, ContractError>(
            ContractError::StillUnbonding,
        ),
        apply(s, Operation::Unstake { address, now }) == Err::<StateView, ContractError>(
            ContractError::AlreadyUnbonding,
        ),
{
}

/// The place of an account in the ledger never moves back and is never
/// past the end of the ledger: after any operation, the account under an
/// address stands where it stood or further on, and no account stands past
/// the sequence number of the next entry.
pub proof fn law_monotonic_cursor(s: StateView, op: Operation)
    requires
        s.wf(),
        apply(s, op) is Ok,
    ensures
        cursors_advance(s, apply(s, op)->Ok_0),
        forall|k: int|
            0 <= k < apply(s, op)->Ok_0.accounts.len() ==> (#[trigger] apply(
                s,
                op,
            )->Ok_0.accounts[k]).account.seq_no <= apply(s, op)->Ok_0.ledger_entry_seq_no,
{
    lemma_apply_follows(s, op);
    law_validity(s, op);
}

/// In a valid state the count of an entry is the number of accounts that
/// are not unbonding and have yet to replay it, and an entry that such an
/// account has yet to replay is in the ledger.
pub proof fn law_counts_are_exact(s: StateView, i: u128)
    requires
        s.wf(),
        i < s.ledger_entry_seq_no,
    ensures
        s.ledger.dom().contains(i) ==> s.ledger[i].ref_count == behind(s.accounts, i),
        behind(s.accounts, i) >= 1 ==> s.ledger.dom().contains(i),
{
}

/// An entry that is owed to some account is dropped by the very operation
/// in which the last such account replays it: after any operation the
/// entry is in the ledger if and only if an account that is not unbonding
/// has yet to replay it.
pub proof fn law_ref_count(s: StateView, op: Operation, i: u128)
    requires
        s.wf(),
        apply(s, op) is Ok,
        s.ledger.dom().contains(i),
        s.ledger[i].ref_count >= 1,
    ensures
        apply(s, op)->Ok_0.ledger.dom().contains(i) <==> behind(apply(s, op)->Ok_0.accounts, i)
            >= 1,
{
    lemma_apply_follows(s, op);
    law_validity(s, op);
}

/// Revenues that come in one after the other, with no stake changing in
/// between, make at most one new entry: all of them are added to the entry
/// that was open when the first came in, or to one new entry where none
/// was open. That entry holds what it held plus the sum of what the
/// revenues add to liquidity and to dividends.
pub proof fn law_coalescing(s: StateView, revenues: Seq<Receipt>)
    requires
        s.wf(),
        revenues.len() >= 1,
        receive_all(s, revenues) is Ok,
    ensures
        ({
            let after = receive_all(s, revenues)->Ok_0;
            let at = open_entry(s);
            &&& after.wf()
            &&& after.config == s.config
            &&& after.latest_is_open()
            &&& after.ledger_entry_seq_no == at + 1
            &&& after.ledger[at].delta_revenue == open_deltas(s).0 + restaked_sum(s, revenues)
            &&& after.ledger[at].delta_dividends == open_deltas(s).1 + dividends_sum(
                s,
                revenues,
            )
            &&& after.ledger[at].delta_loss == open_deltas(s).2
            &&& forall|i: u128| #[trigger]
                after.ledger.dom().contains(i) ==> i == at || s.ledger.dom().contains(i)
        }),
    decreases revenues.len(),
{
    let front = revenues.drop_last();
    if front.len() == 0 {
        assert(receive_all(s, front) == Ok::<StateView, ContractError>(s));
        assert(restaked_sum(s, front) == 0);
        assert(dividends_sum(s, front) == 0);
        lemma_receive_coalesces(s, revenues.last().sender, revenues.last().now, revenues.last().revenue);
    } else {
        law_coalescing(s, front);
        let mid = receive_all(s, front)->Ok_0;
        lemma_receive_coalesces(mid, revenues.last().sender, revenues.last().now, revenues.last().revenue);
        assert(revenue_split(mid, revenues.last().revenue) == revenue_split(s, revenues.last().revenue));
    }
}

/// A pool that has just been set up conserves what it holds.
pub proof fn law_conservation_begins(owner: Owner, token: Token, config: Config)
    ensures
        conserved(StateView::empty(owner, token, config)),
{
}

/// Conservation: as long as no payment is written to the ledger, every
/// operation keeps the pool's liquidity and dividends at or above what the
/// accounts that are not unbonding will hold once they have replayed the
/// ledger. What rounding takes from the accounts stays with the pool.
pub proof fn law_conservation(s: StateView, op: Operation)
    requires
        s.wf(),
        conserved(s),
        apply(s, op) is Ok,
        loss_free(apply(s, op)->Ok_0.ledger),
    ensures
        conserved(apply(s, op)->Ok_0),
{
    match op {
        Operation::Stake { address, amount } => {
            lemma_stake_core_wf(s, address, amount);
            lemma_stake_conserved(s, address, amount);
            lemma_amortize_conserved(stake_core(s, address, amount)->Ok_0);
        },
        Operation::Unstake { address, now } => {
            lemma_unstake_core_wf(s, address, now);
            lemma_unstake_conserved(s, address, now);
            lemma_amortize_conserved(unstake_core(s, address, now)->Ok_0.0);
        },
        Operation::Claim { address } => {
            lemma_claim_core_wf(s, address);
            lemma_claim_conserved(s, address);
            lemma_amortize_conserved(claim_core(s, address)->Ok_0.0);
        },
        Operation::Withdraw { address, now } => {
            lemma_withdraw_core_wf(s, address, now);
            lemma_withdraw_conserved(s, address, now);
            lemma_amortize_conserved(withdraw_core(s, address, now)->Ok_0.0);
        },
        Operation::Receive { sender, now, revenue } => {
            lemma_receive_core_wf(s, revenue);
            lemma_receive_conserved(s, revenue);
            let core = booked(s, sender, now, revenue);
            lemma_conserved_frame(receive_core(s, revenue)->Ok_0, core);
            lemma_amortize_conserved(core);
        },
        Operation::Process { block, client_address, initiator, incoming, outgoing } => {
            lemma_process_conserved(s, block, client_address, initiator, incoming, outgoing);
        },
        Operation::Amortize => {
            lemma_amortize_conserved(s);
        },
        Operation::Deposit { sender, amount } => {
            lemma_amortize_conserved(s);
            lemma_conserved_frame(amortize_spec(s)->Ok_0, apply(s, op)->Ok_0);
        },
        Operation::WithdrawBalance { sender, amount } => {
            lemma_amortize_conserved(s);
            lemma_conserved_frame(amortize_spec(s)->Ok_0, apply(s, op)->Ok_0);
        },
        Operation::PayTaxes { sender, acl_allows } => {
            lemma_conserved_frame(s, apply(s, op)->Ok_0);
        },
        Operation::Migrate { msg } => {
            if msg is V0_0_4 {
                lemma_pruned_conserved(s);
            } else {
                lemma_conserved_frame(s, apply(s, op)->Ok_0);
            }
        },
    }
}

/// Where conservation holds and every account that is not unbonding has
/// replayed all of the ledger, the liquidity of these accounts is together
/// no more than the pool's, and so are their dividends.
pub proof fn law_conserved_balances(s: StateView)
    requires
        conserved(s),
        forall|k: int|
            0 <= k < s.accounts.len() && (#[trigger] s.accounts[k]).account.is_active()
                ==> s.accounts[k].account.seq_no == s.ledger_entry_seq_no,
    ensures
        total(s.accounts, liquidity_weight()) <= s.pool.liquidity,
        total(s.accounts, dividends_weight()) <= s.pool.dividends,
{
    lemma_total_same(
        s.accounts,
        liquidity_weight(),
        liquidity_outlook(s.ledger, s.ledger_entry_seq_no),
    );
    lemma_total_same(
        s.accounts,
        dividends_weight(),
        dividends_outlook(s.ledger, s.ledger_entry_seq_no),
    );
}

/// A pool that has just been set up is solvent.
pub proof fn law_solvency_begins(owner: Owner, token: Token, config: Config)
    ensures
        solvent(StateView::empty(owner, token, config)),
{
}

/// Solvency: as long as no payment is written to the ledger, every
/// operation keeps the pool solvent.
pub proof fn law_solvency(s: StateView, op: Operation)
    requires
        s.wf(),
        solvent(s),
        apply(s, op) is Ok,
        loss_free(apply(s, op)->Ok_0.ledger),
    ensures
        solvent(apply(s, op)->Ok_0),
{
    law_conservation(s, op);
    match op {
        Operation::Stake { address, amount } => {
            lemma_stake_core_wf(s, address, amount);
            lemma_stake_conserved(s, address, amount);
            lemma_stake_hale(s, address, amount);
            lemma_amortize_hale(stake_core(s, address, amount)->Ok_0);
        },
        Operation::Unstake { address, now } => {
            lemma_unstake_core_wf(s, address, now);
            lemma_unstake_conserved(s, address, now);
            lemma_unstake_hale(s, address, now);
            lemma_amortize_hale(unstake_core(s, address, now)->Ok_0.0);
        },
        Operation::Claim { address } => {
            lemma_claim_core_wf(s, address);
            lemma_claim_conserved(s, address);
            lemma_claim_hale(s, address);
            lemma_amortize_hale(claim_core(s, address)->Ok_0.0);
        },
        Operation::Withdraw { address, now } => {
            lemma_withdraw_core_wf(s, address, now);
            lemma_withdraw_conserved(s, address, now);
            lemma_withdraw_hale(s, address, now);
            lemma_amortize_hale(withdraw_core(s, address, now)->Ok_0.0);
        },
        Operation::Receive { sender, now, revenue } => {
            lemma_receive_core_wf(s, revenue);
            lemma_receive_conserved(s, revenue);
            lemma_receive_hale(s, revenue);
            let core = booked(s, sender, now, revenue);
            lemma_conserved_frame(receive_core(s, revenue)->Ok_0, core);
            assert(hale(core));
            lemma_amortize_hale(core);
        },
        Operation::Process { block, client_address, initiator, incoming, outgoing } => {
            lemma_process_hale(s, block, client_address, initiator, incoming, outgoing);
        },
        Operation::Amortize => {
            lemma_amortize_hale(s);
        },
        Operation::Deposit { sender, amount } => {
            lemma_amortize_hale(s);
        },
        Operation::WithdrawBalance { sender, amount } => {
            lemma_amortize_hale(s);
        },
        Operation::PayTaxes { sender, acl_allows } => {},
        Operation::Migrate { msg } => {
            assert(msg is V0_0_4 || apply(s, op)->Ok_0.ledger == s.ledger);
            assert(apply(s, op)->Ok_0.accounts == s.accounts);
            assert forall|j: u128| #[trigger]
                pruned(s).ledger.dom().contains(j) && pruned(s).ledger[j].ref_count
                    >= 1 implies pruned(s).ledger[j].liquidity >= 1 by {
                assert(s.ledger.dom().contains(j));
            }
        },
    }
}

/// In a valid and solvent state no account that is not unbonding is ever
/// stuck: it can be brought up to date, in passing or for good. Nothing but
/// a payment can bring the pool to where a replay fails.
pub proof fn law_replay_succeeds(s: StateView, k: int, is_final: bool)
    requires
        s.wf(),
        solvent(s),
        0 <= k < s.accounts.len(),
        s.accounts[k].account.is_active(),
    ensures
        sync_account_spec(s, s.accounts[k].account, is_final) is Ok,
{
    lemma_replay_succeeds(s, k, sync_target(s.ledger_entry_seq_no, is_final));
}

/// The queue makes headway: where the account of the address at its front
/// is not unbonding and is behind the ledger, a turn that succeeds brings
/// that account up to the latest entry, and the address waits at the back
/// of the queue again.
pub proof fn law_turn_makes_headway(s: StateView)
    requires
        s.wf(),
        s.memoization_queue.len() > 0,
        lookup(s.accounts, s.memoization_queue[0]) is Some,
        s.accounts[lookup(s.accounts, s.memoization_queue[0])->Some_0].account.is_active(),
        s.accounts[lookup(s.accounts, s.memoization_queue[0])->Some_0].account.seq_no
            < s.ledger_entry_seq_no,
        amortize_step(s) is Ok,
    ensures
        ({
            let i = lookup(s.accounts, s.memoization_queue[0])->Some_0;
            let after = amortize_step(s)->Ok_0.0;
            &&& amortize_step(s)->Ok_0.1
            &&& after.accounts[i].address == s.memoization_queue[0]
            &&& after.accounts[i].account.seq_no >= s.ledger_entry_seq_no - 1
            &&& after.memoization_queue.last() == s.memoization_queue[0]
        }),
{
    let address = s.memoization_queue[0];
    lemma_lookup(s.accounts, address);
    let i = lookup(s.accounts, address)->Some_0;
    lemma_turned_wf(s);
    lemma_sync_wf(turned(s), i, false);
    if s.n_ledger_entries != 0 {
        lemma_replay_keeps(
            s.ledger,
            s.accounts[i].account,
            sync_target(s.ledger_entry_seq_no, false),
        );
    } else {
        lemma_empty_ledger(s, i);
    }
}

/// What an account that is not unbonding takes of a delta out of a pool
/// whose liquidity was `snapshot`.
pub open spec fn share_weight(delta: u128, snapshot: u128) -> spec_fn(StakeAccount) -> int {
    |a: StakeAccount| part(delta, liquidity_weight()(a), snapshot)
}

/// With or without payments: the accounts that replay an entry take no more
/// of its revenue and of its dividends together than the entry holds, and
/// bear no more of its loss, as long as they hold no more together than the
/// entry's snapshot. What rounding keeps from them stays with the pool; what
/// rounding spares them of a loss, the pool bears.
pub proof fn law_shares_are_covered(accounts: Seq<Staker>, entry: LedgerEntry)
    requires
        total(accounts, liquidity_weight()) <= entry.liquidity,
    ensures
        0 <= total(accounts, share_weight(entry.delta_revenue, entry.liquidity))
            <= entry.delta_revenue,
        0 <= total(accounts, share_weight(entry.delta_loss, entry.liquidity)) <= entry.delta_loss,
        0 <= total(accounts, share_weight(entry.delta_dividends, entry.liquidity))
            <= entry.delta_dividends,
{
    let held = liquidity_weight();
    let whole = total(accounts, held);
    lemma_parts_total(
        accounts,
        held,
        share_weight(entry.delta_revenue, entry.liquidity),
        entry.delta_revenue,
        entry.liquidity,
    );
    lemma_parts_total(
        accounts,
        held,
        share_weight(entry.delta_loss, entry.liquidity),
        entry.delta_loss,
        entry.liquidity,
    );
    lemma_parts_total(
        accounts,
        held,
        share_weight(entry.delta_dividends, entry.liquidity),
        entry.delta_dividends,
        entry.liquidity,
    );
    lemma_part_bound(entry.delta_revenue, whole, entry.liquidity);
    lemma_part_bound(entry.delta_loss, whole, entry.liquidity);
    lemma_part_bound(entry.delta_dividends, whole, entry.liquidity);
    assert forall|a: StakeAccount|
        #[trigger] share_weight(entry.delta_revenue, entry.liquidity)(a) >= 0
            && #[trigger] share_weight(entry.delta_loss, entry.liquidity)(a) >= 0
            && #[trigger] share_weight(entry.delta_dividends, entry.liquidity)(a) >= 0 by {
        lemma_parts_add(entry.delta_revenue, held(a), 0, entry.liquidity);
        lemma_parts_add(entry.delta_loss, held(a), 0, entry.liquidity);
        lemma_parts_add(entry.delta_dividends, held(a), 0, entry.liquidity);
    }
    lemma_total_bounds(accounts, share_weight(entry.delta_revenue, entry.liquidity));
    lemma_total_bounds(accounts, share_weight(entry.delta_loss, entry.liquidity));
    lemma_total_bounds(accounts, share_weight(entry.delta_dividends, entry.liquidity));
}

/// With or without payments: a share falls short of the exact proportion by
/// less than one unit. So a payment leaves the accounts that replay it with
/// less than one unit each above what the pool holds for them.
pub proof fn law_dust_is_less_than_a_unit(delta: u128, liquidity: u128, snapshot: u128)
    requires
        snapshot > 0,
    ensures
        share(delta, liquidity, snapshot) * snapshot <= delta * liquidity,
        delta * liquidity < (share(delta, liquidity, snapshot) + 1) * snapshot,
{
    let d = delta as int;
    let l = liquidity as int;
    let n = snapshot as int;
    assert(((d * l) / n) * n <= d * l && d * l < ((d * l) / n + 1) * n) by (nonlinear_arith)
        requires
            n > 0,
            d >= 0,
            l >= 0,
    ;
}

/// With or without payments: in a valid state the pool's delegation is
/// exactly what the accounts that are not unbonding have staked.
pub proof fn law_delegation_is_conserved(s: StateView)
    requires
        s.wf(),
    ensures
        s.pool.delegation == total(s.accounts, delegation_weight()),
{
}

} // verus!
