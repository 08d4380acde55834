//! No staker is ever stuck, as long as the pool pays nothing out.
use vstd::prelude::*;

use crate::conservation::conserved;
use crate::conservation::dividends_outlook;
use crate::conservation::grown;
use crate::conservation::lemma_behind_finds;
use crate::conservation::lemma_part_of_nothing;
use crate::conservation::lemma_parts_add;
use crate::conservation::lemma_projected_grows;
use crate::conservation::lemma_projected_split;
use crate::conservation::lemma_replay_is_outlook;
use crate::conservation::liquidity_outlook;
use crate::conservation::loss_free;
use crate::conservation::outlook;
use crate::conservation::projected;
use crate::ledger::lemma_replay_keeps;
use crate::ledger::replay;
use crate::ledger::replay_entry;
use crate::ledger::sync_target;
use crate::models::LedgerEntry;
use crate::models::StakeAccount;
use crate::models::Timestamp;
use crate::transition::amortize_spec;
use crate::transition::amortize_step;
use crate::transition::claim_core;
use crate::transition::receive_core;
use crate::transition::revenue_split;
use crate::transition::stake_core;
use crate::transition::staked;
use crate::transition::sync_account_spec;
use crate::transition::unstake_core;
use crate::transition::upsert_spec;
use crate::transition::withdraw_core;
use crate::utils::lemma_mul_pct_bound;
use crate::validity::lemma_active_count;
use crate::validity::lemma_amortize_step_wf;
use crate::validity::lemma_turned_wf;
use crate::validity::synced;
use crate::validity::turned;
use crate::view::Staker;
use crate::view::StateView;
use crate::view::active_weight;
use crate::view::behind;
use crate::view::behind_weight;
use crate::view::lemma_lookup;
use crate::view::lemma_total_bounds;
use crate::view::lookup;
use crate::view::total;

verus! {

/// Every account that is not unbonding holds some liquidity, and every
/// entry that is owed to some account was made of a pool that held some.
pub open spec fn hale(s: StateView) -> bool {
    &&& forall|k: int|
        0 <= k < s.accounts.len() && (#[trigger] s.accounts[k]).account.is_active()
            ==> s.accounts[k].account.liquidity >= 1
    &&& forall|i: u128| #[trigger]
        s.ledger.dom().contains(i) && s.ledger[i].ref_count >= 1 ==> s.ledger[i].liquidity >= 1
}

/// The pool conserves what it holds and is hale.
pub open spec fn solvent(s: StateView) -> bool {
    conserved(s) && hale(s)
}

/// A replay succeeds where every entry of its range is in the ledger with a
/// positive count and a positive snapshot, no entry holds a loss, and what
/// the account will hold after the replay fits 128 bits.
pub proof fn lemma_replay_fits(ledger: Map<u128, LedgerEntry>, account: StakeAccount, upto: u128)
    requires
        loss_free(ledger),
        forall|i: u128|
            account.seq_no <= i < upto ==> {
                &&& #[trigger] ledger.dom().contains(i)
                &&& ledger[i].ref_count >= 1
                &&& ledger[i].liquidity >= 1
            },
        outlook(ledger, account, upto).0 <= u128::MAX,
        outlook(ledger, account, upto).1 <= u128::MAX,
    ensures
        replay(ledger, account, upto) is Ok,
    decreases upto - account.seq_no,
{
    if account.seq_no < upto {
        let entry = ledger[account.seq_no];
        assert(ledger.dom().contains(account.seq_no));
        let own = (account.liquidity as int, account.dividends as int);
        let next = grown(own, entry);
        lemma_parts_add(entry.delta_revenue, own.0, 0, entry.liquidity);
        lemma_parts_add(entry.delta_dividends, own.0, 0, entry.liquidity);
        lemma_part_of_nothing(0, own.0, entry.liquidity);
        lemma_projected_grows(ledger, next, (account.seq_no + 1) as u128, upto);
        let replayed = replay_entry(account, entry);
        assert(replayed is Ok);
        lemma_replay_fits(
            ledger,
            StakeAccount { seq_no: (account.seq_no + 1) as u128, ..replayed->Ok_0 },
            upto,
        );
    }
}

/// What an account will hold after a longer replay is no less than after a
/// shorter one, where no entry holds a loss.
pub proof fn lemma_outlook_grows(
    ledger: Map<u128, LedgerEntry>,
    account: StakeAccount,
    sooner: u128,
    later: u128,
)
    requires
        loss_free(ledger),
        sooner <= later,
    ensures
        account.liquidity <= outlook(ledger, account, sooner).0 <= outlook(
            ledger,
            account,
            later,
        ).0,
        account.dividends <= outlook(ledger, account, sooner).1 <= outlook(
            ledger,
            account,
            later,
        ).1,
{
    let own = (account.liquidity as int, account.dividends as int);
    lemma_projected_grows(ledger, own, account.seq_no, sooner);
    if account.seq_no <= sooner {
        lemma_projected_split(ledger, own, account.seq_no, sooner, later);
        lemma_projected_grows(
            ledger,
            projected(ledger, own, account.seq_no, sooner),
            sooner,
            later,
        );
    } else {
        lemma_projected_grows(ledger, own, account.seq_no, later);
    }
}

/// In a solvent state, what one account will hold at the end of the ledger
/// is covered by the pool.
pub proof fn lemma_outlook_is_covered(s: StateView, k: int)
    requires
        conserved(s),
        0 <= k < s.accounts.len(),
        s.accounts[k].account.is_active(),
    ensures
        outlook(s.ledger, s.accounts[k].account, s.ledger_entry_seq_no).0 <= s.pool.liquidity,
        outlook(s.ledger, s.accounts[k].account, s.ledger_entry_seq_no).1 <= s.pool.dividends,
{
    let end = s.ledger_entry_seq_no;
    assert forall|a: StakeAccount| #[trigger] liquidity_outlook(s.ledger, end)(a) >= 0 by {
        lemma_outlook_grows(s.ledger, a, end, end);
    }
    assert forall|a: StakeAccount| #[trigger] dividends_outlook(s.ledger, end)(a) >= 0 by {
        lemma_outlook_grows(s.ledger, a, end, end);
    }
    lemma_total_bounds(s.accounts, liquidity_outlook(s.ledger, end));
    lemma_total_bounds(s.accounts, dividends_outlook(s.ledger, end));
    assert(liquidity_outlook(s.ledger, end)(s.accounts[k].account) == outlook(
        s.ledger,
        s.accounts[k].account,
        end,
    ).0);
    assert(dividends_outlook(s.ledger, end)(s.accounts[k].account) == outlook(
        s.ledger,
        s.accounts[k].account,
        end,
    ).1);
}

/// In a valid and solvent state every account that is not unbonding can
/// replay the ledger, as far as it likes.
pub proof fn lemma_replay_succeeds(s: StateView, k: int, upto: u128)
    requires
        s.wf(),
        solvent(s),
        0 <= k < s.accounts.len(),
        s.accounts[k].account.is_active(),
        upto <= s.ledger_entry_seq_no,
    ensures
        replay(s.ledger, s.accounts[k].account, upto) is Ok,
{
    let account = s.accounts[k].account;
    lemma_outlook_is_covered(s, k);
    lemma_outlook_grows(s.ledger, account, upto, s.ledger_entry_seq_no);
    assert forall|i: u128| account.seq_no <= i < upto implies {
        &&& #[trigger] s.ledger.dom().contains(i)
        &&& s.ledger[i].ref_count >= 1
        &&& s.ledger[i].liquidity >= 1
    } by {
        lemma_behind_finds(s, k, i);
        lemma_total_bounds(s.accounts, behind_weight(i));
        assert(behind_weight(i)(s.accounts[k].account) == 1);
        assert(behind(s.accounts, i) >= 1);
    }
    lemma_replay_fits(s.ledger, account, upto);
}

/// Where some account is counted as not unbonding, there is one.
pub proof fn lemma_some_active(accounts: Seq<Staker>)
    requires
        total(accounts, active_weight()) >= 1,
    ensures
        exists|k: int| 0 <= k < accounts.len() && (#[trigger] accounts[k]).account.is_active(),
    decreases accounts.len(),
{
    if accounts.len() > 0 {
        if accounts.last().account.is_active() {
            assert(accounts[accounts.len() - 1].account.is_active());
        } else {
            lemma_some_active(accounts.drop_last());
            let k = choose|k: int|
                0 <= k < accounts.drop_last().len() && (
                #[trigger] accounts.drop_last()[k]).account.is_active();
            assert(accounts[k] == accounts.drop_last()[k]);
        }
    }
}

/// Bringing an account up to date keeps the pool hale and takes nothing
/// from the account.
pub proof fn lemma_sync_hale(s: StateView, i: int, is_final: bool)
    requires
        s.wf(),
        hale(s),
        loss_free(s.ledger),
        0 <= i < s.accounts.len(),
        s.accounts[i].account.is_active(),
        sync_account_spec(s, s.accounts[i].account, is_final) is Ok,
    ensures
        hale(synced(s, i, is_final)),
        s.accounts[i].account.liquidity <= sync_account_spec(
            s,
            s.accounts[i].account,
            is_final,
        )->Ok_0.1.liquidity,
{
    let account = s.accounts[i].account;
    let after = synced(s, i, is_final);
    let upto = sync_target(s.ledger_entry_seq_no, is_final);
    if s.n_ledger_entries != 0 {
        lemma_replay_is_outlook(s.ledger, account, upto);
        lemma_outlook_grows(s.ledger, account, upto, upto);
        lemma_replay_keeps(s.ledger, account, upto);
        assert forall|j: u128| #[trigger]
            after.ledger.dom().contains(j) && after.ledger[j].ref_count
                >= 1 implies after.ledger[j].liquidity >= 1 by {
            assert(s.ledger.dom().contains(j));
        }
    } else {
        assert(after.accounts =~= s.accounts);
    }
}

/// Writing revenue to the ledger keeps a solvent pool hale.
pub proof fn lemma_upsert_hale(s: StateView, restaked: u128, dividends: u128, after: StateView)
    requires
        s.wf(),
        solvent(s),
        upsert_spec(s, restaked, dividends, 0) is Ok,
        after.accounts == s.accounts,
        after.ledger == upsert_spec(s, restaked, dividends, 0)->Ok_0.0.ledger,
    ensures
        hale(after),
{
    let end = s.ledger_entry_seq_no;
    if !s.latest_is_open() {
        lemma_active_count(s);
        if s.n_stake_accounts - s.n_stake_accounts_unbonding >= 1 {
            lemma_some_active(s.accounts);
            let k = choose|k: int|
                0 <= k < s.accounts.len() && (#[trigger] s.accounts[k]).account.is_active();
            lemma_outlook_is_covered(s, k);
            lemma_outlook_grows(s.ledger, s.accounts[k].account, end, end);
        }
    }
    assert forall|j: u128| #[trigger]
        after.ledger.dom().contains(j) && after.ledger[j].ref_count
            >= 1 implies after.ledger[j].liquidity >= 1 by {
        if s.latest_is_open() {
            assert(s.ledger.dom().contains(j));
        } else if j != end {
            assert(s.ledger.dom().contains(j));
        }
    }
}

/// A turn of the queue keeps the pool hale.
pub proof fn lemma_amortize_step_hale(s: StateView)
    requires
        s.wf(),
        hale(s),
        loss_free(s.ledger),
        amortize_step(s) is Ok,
    ensures
        hale(amortize_step(s)->Ok_0.0),
{
    if s.memoization_queue.len() > 0 {
        let address = s.memoization_queue[0];
        lemma_lookup(s.accounts, address);
        match lookup(s.accounts, address) {
            Some(i) => {
                let account = s.accounts[i].account;
                if account.is_active() && account.seq_no < s.ledger_entry_seq_no {
                    lemma_turned_wf(s);
                    lemma_sync_hale(turned(s), i, false);
                    assert(amortize_step(s)->Ok_0.0 == synced(turned(s), i, false));
                }
            },
            None => {},
        }
    }
}

/// The replay in passing keeps a solvent pool hale.
pub proof fn lemma_amortize_hale(s: StateView)
    requires
        s.wf(),
        solvent(s),
        amortize_spec(s) is Ok,
    ensures
        hale(amortize_spec(s)->Ok_0),
{
    lemma_amortize_step_hale(s);
    let (s1, done) = amortize_step(s)->Ok_0;
    if !done {
        lemma_amortize_step_wf(s);
        assert(s1.ledger == s.ledger);
        lemma_amortize_step_hale(s1);
    }
}

/// The pool stays hale when one account is rewritten so that it holds some
/// liquidity or is unbonding, and the ledger is left alone.
pub proof fn lemma_retouch_hale(s: StateView, i: int, account: StakeAccount, after: StateView)
    requires
        hale(s),
        0 <= i < s.accounts.len(),
        after.accounts == s.accounts.update(i, Staker { address: s.accounts[i].address, account }),
        after.ledger == s.ledger,
        account.is_active() ==> account.liquidity >= 1,
    ensures
        hale(after),
{
    assert forall|k: int|
        0 <= k < after.accounts.len() && (
        #[trigger] after.accounts[k]).account.is_active() implies after.accounts[k].account.liquidity
        >= 1 by {
        if k != i {
            assert(after.accounts[k] == s.accounts[k]);
        }
    }
}

/// Staking keeps a solvent pool hale.
pub proof fn lemma_stake_hale(s: StateView, address: Seq<char>, amount: u128)
    requires
        s.wf(),
        solvent(s),
        stake_core(s, address, amount) is Ok,
    ensures
        hale(stake_core(s, address, amount)->Ok_0),
{
    let core = stake_core(s, address, amount)->Ok_0;
    lemma_lookup(s.accounts, address);
    match lookup(s.accounts, address) {
        Some(i) => {
            lemma_sync_hale(s, i, true);
            let a1 = sync_account_spec(s, s.accounts[i].account, true)->Ok_0.1;
            assert(core.accounts =~= synced(s, i, true).accounts.update(
                i,
                Staker { address: s.accounts[i].address, account: staked(a1, amount) },
            ));
            lemma_retouch_hale(synced(s, i, true), i, staked(a1, amount), core);
        },
        None => {
            assert forall|k: int|
                0 <= k < core.accounts.len() && (
                #[trigger] core.accounts[k]).account.is_active() implies core.accounts[k].account.liquidity
                >= 1 by {
                if k < s.accounts.len() {
                    assert(core.accounts[k] == s.accounts[k]);
                }
            }
        },
    }
}

/// Unstaking keeps a solvent pool hale.
pub proof fn lemma_unstake_hale(s: StateView, address: Seq<char>, now: Timestamp)
    requires
        s.wf(),
        solvent(s),
        unstake_core(s, address, now) is Ok,
    ensures
        hale(unstake_core(s, address, now)->Ok_0.0),
{
    let core = unstake_core(s, address, now)->Ok_0.0;
    lemma_lookup(s.accounts, address);
    let i = lookup(s.accounts, address)->Some_0;
    lemma_sync_hale(s, i, true);
    assert(core.accounts =~= synced(s, i, true).accounts.update(
        i,
        Staker { address: s.accounts[i].address, account: core.accounts[i].account },
    ));
    lemma_retouch_hale(synced(s, i, true), i, core.accounts[i].account, core);
}

/// Claiming keeps a solvent pool hale.
pub proof fn lemma_claim_hale(s: StateView, address: Seq<char>)
    requires
        s.wf(),
        solvent(s),
        claim_core(s, address) is Ok,
    ensures
        hale(claim_core(s, address)->Ok_0.0),
{
    let core = claim_core(s, address)->Ok_0.0;
    lemma_lookup(s.accounts, address);
    let i = lookup(s.accounts, address)->Some_0;
    lemma_sync_hale(s, i, true);
    assert(core.accounts =~= synced(s, i, true).accounts.update(
        i,
        Staker { address: s.accounts[i].address, account: core.accounts[i].account },
    ));
    lemma_retouch_hale(synced(s, i, true), i, core.accounts[i].account, core);
}

/// Withdrawing keeps a solvent pool hale.
pub proof fn lemma_withdraw_hale(s: StateView, address: Seq<char>, now: Timestamp)
    requires
        s.wf(),
        solvent(s),
        withdraw_core(s, address, now) is Ok,
    ensures
        hale(withdraw_core(s, address, now)->Ok_0.0),
{
    let core = withdraw_core(s, address, now)->Ok_0.0;
    lemma_lookup(s.accounts, address);
    let i = lookup(s.accounts, address)->Some_0;
    assert forall|k: int|
        0 <= k < core.accounts.len() && (
        #[trigger] core.accounts[k]).account.is_active() implies core.accounts[k].account.liquidity
        >= 1 by {
        assert(core.accounts[k] == s.accounts[if k < i { k } else { k + 1 }]);
    }
}

/// Taking in revenue keeps a solvent pool hale.
pub proof fn lemma_receive_hale(s: StateView, revenue: u128)
    requires
        s.wf(),
        solvent(s),
        receive_core(s, revenue) is Ok,
    ensures
        hale(receive_core(s, revenue)->Ok_0),
{
    let (tax, restaked, dividends) = revenue_split(s, revenue);
    lemma_mul_pct_bound(revenue, s.config.tax_rate);
    lemma_mul_pct_bound((revenue - tax) as u128, s.config.restake_rate);
    lemma_upsert_hale(s, restaked as u128, dividends as u128, receive_core(s, revenue)->Ok_0);
}

} // verus!
