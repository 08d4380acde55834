//! The queue of accounts that wait for a replay in passing.
use vstd::prelude::*;

use crate::error::ContractError;
use crate::ledger::lemma_replay_frame;
use crate::ledger::replay;
use crate::ledger::sync_target;
use crate::models::LedgerEntry;
use crate::models::StakeAccount;
use crate::state::State;
use crate::state::sync_account;
use crate::transition::account_of;
use crate::transition::amortize_spec;
use crate::transition::amortize_step;
use crate::transition::turn_outcome;
use crate::validity::lemma_amortize_step_wf;
use crate::validity::lemma_empty_ledger;
use crate::view::Staker;
use crate::view::StateView;
use crate::view::behind;
use crate::view::behind_weight;
use crate::view::lemma_lookup;
use crate::view::lemma_lookup_distinct;
use crate::view::lemma_lookup_is;
use crate::view::lemma_total_bounds;
use crate::view::lookup;

verus! {

/// What an operation is about to write, as far as the replay in passing
/// depends on it: the account it changes, with its new value or none where
/// the account is closed, and whether the address joins the queue.
pub(crate) struct Pending<'a> {
    pub touched: Option<(&'a String, Option<StakeAccount>)>,
    pub pushed: bool,
    pub seq_no: u128,
}

impl<'a> Pending<'a> {
    pub(crate) open spec fn touched_view(&self) -> Option<(Seq<char>, Option<StakeAccount>)> {
        match self.touched {
            Some((address, account)) => Some((address@, account)),
            None => None,
        }
    }

    /// The state `post` is the state `s` with what is pending written to it,
    /// as far as the replay in passing can tell.
    pub(crate) open spec fn leads_to(&self, s: StateView, post: StateView) -> bool {
        leads_to(s, post, self.touched_view(), self.pushed, self.seq_no)
    }
}

/// The state `post` is the state `s` after an operation, as far as the
/// replay in passing can tell: the queue has grown by the address that the
/// operation pushed, if any; the accounts are those of `s` but for the one
/// that the operation touched; and every account that is not unbonding
/// replays in `post` what it would have replayed in `s`.
pub open spec fn leads_to(
    s: StateView,
    post: StateView,
    touched: Option<(Seq<char>, Option<StakeAccount>)>,
    pushed: bool,
    seq_no: u128,
) -> bool {
    let upto = sync_target(seq_no, false);
    &&& post.ledger_entry_seq_no == seq_no
    &&& pushed ==> touched is Some
    &&& post.memoization_queue == if pushed {
        s.memoization_queue.push(touched->Some_0.0)
    } else {
        s.memoization_queue
    }
    &&& forall|address: Seq<char>| #[trigger]
        account_of(post.accounts, address) == if touched is Some && touched->Some_0.0 == address {
            touched->Some_0.1
        } else {
            account_of(s.accounts, address)
        }
    &&& forall|k: int|
        0 <= k < post.accounts.len() && (#[trigger] post.accounts[k]).account.is_active()
            ==> replay(s.ledger, post.accounts[k].account, upto) == replay(
            post.ledger,
            post.accounts[k].account,
            upto,
        )
}

/// Below `upto`, every entry of the ledger `after` was in the ledger
/// `before` with the same snapshot and the same deltas.
pub open spec fn ledger_kept(
    before: Map<u128, LedgerEntry>,
    after: Map<u128, LedgerEntry>,
    upto: u128,
) -> bool {
    forall|j: u128|
        j < upto && #[trigger] after.dom().contains(j) ==> {
            &&& before.dom().contains(j)
            &&& before[j].liquidity == after[j].liquidity
            &&& before[j].delta_revenue == after[j].delta_revenue
            &&& before[j].delta_loss == after[j].delta_loss
            &&& before[j].delta_dividends == after[j].delta_dividends
        }
}

/// An account that is not unbonding and stands in two states whose ledgers
/// agree with their accounts replays the same in both, where the later
/// ledger has kept what it holds below the end of the replay.
pub proof fn lemma_frame(s: StateView, post: StateView, k: int, n: int, upto: u128)
    requires
        s.wf_ledger(),
        post.wf_ledger(),
        0 <= k < s.accounts.len(),
        0 <= n < post.accounts.len(),
        s.accounts[k].account == post.accounts[n].account,
        post.accounts[n].account.is_active(),
        upto <= post.ledger_entry_seq_no,
        ledger_kept(s.ledger, post.ledger, upto),
    ensures
        replay(s.ledger, post.accounts[n].account, upto) == replay(
            post.ledger,
            post.accounts[n].account,
            upto,
        ),
{
    let account = post.accounts[n].account;
    assert forall|j: u128| account.seq_no <= j < upto implies {
        &&& s.ledger.dom().contains(j)
        &&& post.ledger.dom().contains(j)
        &&& s.ledger[j].ref_count != 0
        &&& post.ledger[j].ref_count != 0
    } by {
        lemma_total_bounds(s.accounts, behind_weight(j));
        lemma_total_bounds(post.accounts, behind_weight(j));
        assert(behind_weight(j)(s.accounts[k].account) == 1);
        assert(behind_weight(j)(post.accounts[n].account) == 1);
        assert(behind(post.accounts, j) >= 1);
        assert(post.ledger.dom().contains(j));
    }
    lemma_replay_frame(s.ledger, post.ledger, account, upto);
}

/// Which account is found under an address depends on the addresses alone.
pub proof fn lemma_lookup_by_address(a: Seq<Staker>, b: Seq<Staker>, address: Seq<char>)
    requires
        a.len() == b.len(),
        forall|k: int| 0 <= k < a.len() ==> a[k].address == b[k].address,
    ensures
        lookup(a, address) == lookup(b, address),
{
    lemma_lookup(a, address);
    lemma_lookup(b, address);
    match lookup(a, address) {
        Some(i) => {
            lemma_lookup_is(b, address, i);
        },
        None => {},
    }
}

/// What is pending where an operation rewrites the account at `i`, which
/// then stands at or past the end of the replay in passing.
pub proof fn lemma_leads_to_update(s: StateView, post: StateView, i: int, account: StakeAccount)
    requires
        s.wf(),
        post.wf(),
        0 <= i < s.accounts.len(),
        post.accounts == s.accounts.update(i, Staker { address: s.accounts[i].address, account }),
        post.memoization_queue == s.memoization_queue,
        account.seq_no >= sync_target(post.ledger_entry_seq_no, false),
        ledger_kept(s.ledger, post.ledger, sync_target(post.ledger_entry_seq_no, false)),
    ensures
        leads_to(
            s,
            post,
            Some((s.accounts[i].address, Some(account))),
            false,
            post.ledger_entry_seq_no,
        ),
{
    let upto = sync_target(post.ledger_entry_seq_no, false);
    assert forall|address: Seq<char>| #[trigger]
        account_of(post.accounts, address) == if s.accounts[i].address == address {
            Some(account)
        } else {
            account_of(s.accounts, address)
        } by {
        lemma_lookup_by_address(s.accounts, post.accounts, address);
        lemma_lookup(s.accounts, address);
        lemma_lookup_distinct(s.accounts, i);
    }
    assert forall|k: int|
        0 <= k < post.accounts.len() && (#[trigger] post.accounts[k]).account.is_active() implies replay(
        s.ledger,
        post.accounts[k].account,
        upto,
    ) == replay(post.ledger, post.accounts[k].account, upto) by {
        if k != i {
            lemma_frame(s, post, k, k, upto);
        }
    }
}

/// What is pending where an operation opens an account under an address
/// that has none and lets the address join the queue.
pub proof fn lemma_leads_to_push(s: StateView, post: StateView, address: Seq<char>, account: StakeAccount)
    requires
        s.wf(),
        post.wf(),
        lookup(s.accounts, address) is None,
        post.accounts == s.accounts.push(Staker { address, account }),
        post.memoization_queue == s.memoization_queue.push(address),
        account.seq_no >= sync_target(post.ledger_entry_seq_no, false),
        ledger_kept(s.ledger, post.ledger, sync_target(post.ledger_entry_seq_no, false)),
    ensures
        leads_to(s, post, Some((address, Some(account))), true, post.ledger_entry_seq_no),
{
    let upto = sync_target(post.ledger_entry_seq_no, false);
    lemma_lookup(s.accounts, address);
    assert forall|other: Seq<char>| #[trigger]
        account_of(post.accounts, other) == if address == other {
            Some(account)
        } else {
            account_of(s.accounts, other)
        } by {
        lemma_lookup(s.accounts, other);
        lemma_lookup(post.accounts, other);
        assert(post.accounts.drop_last() =~= s.accounts);
    }
    assert forall|k: int|
        0 <= k < post.accounts.len() && (#[trigger] post.accounts[k]).account.is_active() implies replay(
        s.ledger,
        post.accounts[k].account,
        upto,
    ) == replay(post.ledger, post.accounts[k].account, upto) by {
        if k < s.accounts.len() {
            lemma_frame(s, post, k, k, upto);
        }
    }
}

/// What is pending where an operation closes the account at `i`.
pub proof fn lemma_leads_to_remove(s: StateView, post: StateView, i: int)
    requires
        s.wf(),
        post.wf(),
        0 <= i < s.accounts.len(),
        post.accounts == s.accounts.remove(i),
        post.memoization_queue == s.memoization_queue,
        ledger_kept(s.ledger, post.ledger, sync_target(post.ledger_entry_seq_no, false)),
    ensures
        leads_to(s, post, Some((s.accounts[i].address, None)), false, post.ledger_entry_seq_no),
{
    let upto = sync_target(post.ledger_entry_seq_no, false);
    assert forall|k: int| 0 <= k < post.accounts.len() implies (#[trigger] post.accounts[k])
        == s.accounts[if k < i { k } else { k + 1 }] by {}
    assert forall|address: Seq<char>| #[trigger]
        account_of(post.accounts, address) == if s.accounts[i].address == address {
            None
        } else {
            account_of(s.accounts, address)
        } by {
        lemma_lookup(s.accounts, address);
        lemma_lookup(post.accounts, address);
        match lookup(post.accounts, address) {
            Some(n) => {
                let k = if n < i { n } else { n + 1 };
                assert(post.accounts[n] == s.accounts[k]);
                lemma_lookup_distinct(s.accounts, k);
            },
            None => {
                match lookup(s.accounts, address) {
                    Some(k) => {
                        if k != i {
                            let n = if k < i { k } else { k - 1 };
                            assert(post.accounts[n] == s.accounts[k]);
                        }
                    },
                    None => {},
                }
            },
        }
    }
    assert forall|k: int|
        0 <= k < post.accounts.len() && (#[trigger] post.accounts[k]).account.is_active() implies replay(
        s.ledger,
        post.accounts[k].account,
        upto,
    ) == replay(post.ledger, post.accounts[k].account, upto) by {
        lemma_frame(s, post, if k < i { k } else { k + 1 }, k, upto);
    }
}

/// What is pending where an operation leaves the accounts and the queue as
/// they are.
pub proof fn lemma_leads_to_same(s: StateView, post: StateView)
    requires
        s.wf(),
        post.wf(),
        post.accounts == s.accounts,
        post.memoization_queue == s.memoization_queue,
        ledger_kept(s.ledger, post.ledger, sync_target(post.ledger_entry_seq_no, false)),
    ensures
        leads_to(s, post, None, false, post.ledger_entry_seq_no),
{
    let upto = sync_target(post.ledger_entry_seq_no, false);
    assert forall|k: int|
        0 <= k < post.accounts.len() && (#[trigger] post.accounts[k]).account.is_active() implies replay(
        s.ledger,
        post.accounts[k].account,
        upto,
    ) == replay(post.ledger, post.accounts[k].account, upto) by {
        lemma_frame(s, post, k, k, upto);
    }
}

/// A turn of the queue fails exactly where its outcome for the address at
/// the front is a failure, and leaves all but the queue as it was unless it
/// brings an account up to date.
pub proof fn lemma_step_outcome(s: StateView)
    requires
        s.memoization_queue.len() > 0,
    ensures
        ({
            let address = s.memoization_queue[0];
            let rest = s.memoization_queue.drop_first();
            match turn_outcome(s, address) {
                Err(e) => amortize_step(s) == Err::<(StateView, bool), ContractError>(e),
                Ok((kept, done)) => {
                    &&& amortize_step(s) is Ok
                    &&& amortize_step(s)->Ok_0.1 == done
                    &&& !done ==> amortize_step(s)->Ok_0.0 == (StateView {
                        memoization_queue: if kept {
                            rest.push(address)
                        } else {
                            rest
                        },
                        ..s
                    })
                },
            }
        }),
{
}

/// The outcome of a turn does not depend on the queue.
pub proof fn lemma_outcome_ignores_queue(s: StateView, queue: Seq<Seq<char>>, address: Seq<char>)
    ensures
        turn_outcome(StateView { memoization_queue: queue, ..s }, address) == turn_outcome(
            s,
            address,
        ),
{
}

impl State {
    /// The address at a position of the queue as it will be once what is
    /// pending is written.
    fn pending_queue_at<'a>(&'a self, k: usize, pending: &Pending<'a>, Ghost(post): Ghost<
        StateView,
    >) -> (r: Option<&'a String>)
        requires
            pending.leads_to(self@, post),
        ensures
            match r {
                Some(address) => k < post.memoization_queue.len() && address@
                    == post.memoization_queue[k as int],
                None => k >= post.memoization_queue.len(),
            },
    {
        let len = self.memoization_queue_len();
        if k < len {
            Some(self.memoization_queue_at(k))
        } else if pending.pushed && k == len {
            match pending.touched {
                Some((address, _)) => Some(address),
                None => None,
            }
        } else {
            None
        }
    }

    /// The account under an address as it will be once what is pending is
    /// written.
    fn pending_account<'a>(&self, address: &String, pending: &Pending<'a>, Ghost(post): Ghost<
        StateView,
    >) -> (r: Option<StakeAccount>)
        requires
            pending.leads_to(self@, post),
        ensures
            r == account_of(post.accounts, address@),
    {
        assert(account_of(post.accounts, address@) == if pending.touched_view() is Some
            && pending.touched_view()->Some_0.0 == address@ {
            pending.touched_view()->Some_0.1
        } else {
            account_of(self@.accounts, address@)
        });
        match pending.touched {
            Some((touched, account)) => {
                if *touched == *address {
                    return account;
                }
            },
            None => {},
        }
        self.stake_account(address)
    }

    /// Tells how a turn of the queue will end for an address once what is
    /// pending is written, without writing anything.
    fn check_turn<'a>(&self, address: &String, pending: &Pending<'a>, Ghost(post): Ghost<
        StateView,
    >) -> (r: Result<(bool, bool), ContractError>)
        requires
            pending.leads_to(self@, post),
            post.wf(),
        ensures
            r == turn_outcome(post, address@),
    {
        match self.pending_account(address, pending, Ghost(post)) {
            None => Ok((false, false)),
            Some(account) => {
                if account.unbonding.is_some() {
                    Ok((false, false))
                } else if account.seq_no < pending.seq_no {
                    proof {
                        lemma_lookup(post.accounts, address@);
                        let i = lookup(post.accounts, address@)->Some_0;
                        assert(post.accounts[i].account == account);
                        if post.n_ledger_entries == 0 {
                            lemma_empty_ledger(post, i);
                        }
                    }
                    let upto = if pending.seq_no != 0 {
                        pending.seq_no - 1
                    } else {
                        pending.seq_no
                    };
                    match self.replay_account(account, upto) {
                        Err(e) => Err(e),
                        Ok(_) => Ok((true, true)),
                    }
                } else {
                    Ok((true, false))
                }
            },
        }
    }

    /// Tells whether the replay in passing will succeed once what is pending
    /// is written, without writing anything.
    pub(crate) fn check_amortize<'a>(&'a self, pending: &Pending<'a>, Ghost(post): Ghost<
        StateView,
    >) -> (r: Result<(), ContractError>)
        requires
            pending.leads_to(self@, post),
            post.wf(),
        ensures
            match amortize_spec(post) {
                Err(e) => r == Err::<(), ContractError>(e),
                Ok(_) => r is Ok,
            },
    {
        let first = match self.pending_queue_at(0, pending, Ghost(post)) {
            Some(address) => address,
            None => { return Ok(()); },
        };
        proof {
            lemma_step_outcome(post);
        }
        let (kept, done) = self.check_turn(first, pending, Ghost(post))?;
        if done {
            return Ok(());
        }
        let ghost turned = amortize_step(post)->Ok_0.0;
        let second = match self.pending_queue_at(1, pending, Ghost(post)) {
            Some(address) => Some(address),
            None => if kept {
                Some(first)
            } else {
                None
            },
        };
        match second {
            None => Ok(()),
            Some(address) => {
                proof {
                    assert(turned.memoization_queue.len() > 0);
                    assert(turned.memoization_queue[0] == address@);
                    lemma_step_outcome(turned);
                    lemma_outcome_ignores_queue(post, turned.memoization_queue, address@);
                }
                self.check_turn(address, pending, Ghost(post))?;
                Ok(())
            },
        }
    }
}

/// One turn of the queue, where it is known to succeed.
fn amortize_turn(state: &mut State) -> (done: bool)
    requires
        old(state)@.wf(),
        amortize_step(old(state)@) is Ok,
    ensures
        (final(state)@, done) == amortize_step(old(state)@)->Ok_0,
        final(state)@.wf(),
{
    proof {
        lemma_amortize_step_wf(state@);
    }
    let address = match state.queue_pop_front() {
        Some(address) => address,
        None => { return false; },
    };
    proof {
        lemma_lookup(old(state)@.accounts, address@);
    }
    let i = match state.find_stake_account(&address) {
        Some(i) => i,
        None => { return false; },
    };
    let mut account = state.stake_account_at(i);
    if account.unbonding.is_some() {
        return false;
    }
    state.queue_push_back(address);
    if account.seq_no < state.ledger_entry_seq_no() {
        let synced = sync_account(state, &mut account, false);
        assert(synced is Ok);
        state.set_stake_account(i, account);
        true
    } else {
        false
    }
}

/// The replay in passing, where it is known to succeed.
pub(crate) fn amortize_commit(state: &mut State)
    requires
        old(state)@.wf(),
        amortize_spec(old(state)@) is Ok,
    ensures
        final(state)@ == amortize_spec(old(state)@)->Ok_0,
        final(state)@.wf(),
{
    if !amortize_turn(state) {
        amortize_turn(state);
    }
}

/// Turns the queue of waiting addresses up to twice and brings the first
/// account found behind the ledger up to date, short of the latest entry.
///
/// An address whose account is gone or unbonding leaves the queue; the
/// others join its back again. If the account cannot be brought up to date
/// nothing changes, the queue included.
pub fn amortize(state: &mut State) -> (r: Result<(), ContractError>)
    requires
        old(state)@.wf(),
    ensures
        match amortize_spec(old(state)@) {
            Err(e) => r == Err::<(), ContractError>(e) && final(state)@ == old(state)@,
            Ok(s) => r is Ok && final(state)@ == s,
        },
        final(state)@.wf(),
{
    let pending = Pending { touched: None, pushed: false, seq_no: state.ledger_entry_seq_no() };
    state.check_amortize(&pending, Ghost(state@))?;
    amortize_commit(state);
    Ok(())
}

} // verus!
