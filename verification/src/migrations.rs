//! Mending a state that an earlier version of the pool has left behind.
use vstd::prelude::*;

use crate::error::ContractError;
use crate::models::LedgerEntry;
use crate::models::RevenueStream;
use crate::msg::MigrateMsg;
use crate::state::State;
use crate::table::Keyed;
use crate::validity::lemma_wf_frame;
use crate::view::Staker;
use crate::view::StateView;
use crate::view::behind;
use crate::view::behind_weight;
use crate::view::lemma_total_same;
use crate::view::total;

verus! {

/// The sequence number of the account that is furthest back, unbonding or
/// not; the largest number there is where there is no account.
pub open spec fn least_cursor(accounts: Seq<Staker>) -> u128
    decreases accounts.len(),
{
    if accounts.len() == 0 {
        u128::MAX
    } else {
        let front = least_cursor(accounts.drop_last());
        if accounts.last().account.seq_no < front {
            accounts.last().account.seq_no
        } else {
            front
        }
    }
}

/// The ledger without the entries that lie before every account.
pub open spec fn pruned_ledger(s: StateView) -> Map<u128, LedgerEntry> {
    Map::new(
        |i: u128| s.ledger.dom().contains(i) && i >= least_cursor(s.accounts),
        |i: u128| s.ledger[i],
    )
}

/// The state without the ledger entries that lie before every account.
/// Such entries were made when nobody was staked and are owed to nobody.
pub open spec fn pruned(s: StateView) -> StateView {
    StateView {
        ledger: pruned_ledger(s),
        n_ledger_entries: pruned_ledger(s).dom().len() as u32,
        ..s
    }
}

/// No account is further back than the one that is furthest back.
pub proof fn lemma_least_cursor(accounts: Seq<Staker>)
    ensures
        forall|k: int| 0 <= k < accounts.len() ==> least_cursor(accounts) <= (
        #[trigger] accounts[k]).account.seq_no,
    decreases accounts.len(),
{
    if accounts.len() > 0 {
        lemma_least_cursor(accounts.drop_last());
        assert forall|k: int| 0 <= k < accounts.len() implies least_cursor(accounts) <= (
        #[trigger] accounts[k]).account.seq_no by {
            if k < accounts.len() - 1 {
                assert(accounts.drop_last()[k] == accounts[k]);
            }
        }
    }
}

/// No account has yet to replay an entry that lies before every account.
pub proof fn lemma_nobody_behind(accounts: Seq<Staker>, i: u128)
    requires
        i < least_cursor(accounts),
    ensures
        behind(accounts, i) == 0,
{
    lemma_least_cursor(accounts);
    let nothing = |a: crate::models::StakeAccount| 0int;
    lemma_total_same(accounts, behind_weight(i), nothing);
    lemma_total_nothing(accounts, nothing);
}

/// Weights of nothing sum to nothing.
pub proof fn lemma_total_nothing(accounts: Seq<Staker>, weight: spec_fn(crate::models::StakeAccount) -> int)
    requires
        forall|a: crate::models::StakeAccount| #[trigger] weight(a) == 0,
    ensures
        total(accounts, weight) == 0,
    decreases accounts.len(),
{
    if accounts.len() > 0 {
        lemma_total_nothing(accounts.drop_last(), weight);
    }
}

/// Dropping the entries that lie before every account keeps a valid state
/// valid.
pub proof fn lemma_pruned_wf(s: StateView)
    requires
        s.wf(),
    ensures
        pruned(s).wf(),
        pruned_ledger(s).dom().finite(),
        pruned_ledger(s).dom().len() <= s.ledger.dom().len(),
{
    let after = pruned(s);
    assert(pruned_ledger(s).dom().subset_of(s.ledger.dom()));
    vstd::set_lib::lemma_len_subset(pruned_ledger(s).dom(), s.ledger.dom());
    assert forall|j: u128|
        j < after.ledger_entry_seq_no && #[trigger] behind(after.accounts, j)
            >= 1 implies after.ledger.dom().contains(j) by {
        if j < least_cursor(s.accounts) {
            lemma_nobody_behind(s.accounts, j);
        }
    }
    assert forall|j: u128| #[trigger] after.ledger.dom().contains(j) implies {
        &&& j < after.ledger_entry_seq_no
        &&& after.ledger[j].ref_count == behind(after.accounts, j)
        &&& after.ledger[j].tag <= after.n_delegation_mutations
    } by {
        assert(s.ledger.dom().contains(j));
    }
}

impl State {
    /// The sequence number of the account that is furthest back.
    fn least_cursor(&self) -> (r: u128)
        ensures
            r == least_cursor(self@.accounts),
    {
        let mut least = u128::MAX;
        let mut k: usize = 0;
        while k < self.stake_accounts_len()
            invariant
                k <= self@.accounts.len(),
                least == least_cursor(self@.accounts.take(k as int)),
            decreases self@.accounts.len() - k,
        {
            let account = self.stake_account_at(k);
            assert(self@.accounts.take(k + 1).drop_last() =~= self@.accounts.take(k as int));
            if account.seq_no < least {
                least = account.seq_no;
            }
            k += 1;
        }
        assert(self@.accounts.take(k as int) =~= self@.accounts);
        least
    }
}

/// Drops the ledger entries that lie before every account.
pub fn prune(state: &mut State)
    requires
        old(state)@.wf(),
    ensures
        final(state)@ == pruned(old(state)@),
        final(state)@.wf(),
{
    let bound = state.least_cursor();
    let seq_no = state.ledger_entry_seq_no();
    let upto = if bound < seq_no {
        bound
    } else {
        seq_no
    };
    let ghost start = state@;
    let mut i: u128 = 0;
    assert(state@.ledger =~= Map::new(
        |j: u128| start.ledger.dom().contains(j) && j >= 0,
        |j: u128| start.ledger[j],
    ));
    while i < upto
        invariant
            i <= upto,
            upto <= bound == least_cursor(start.accounts),
            upto <= seq_no == start.ledger_entry_seq_no,
            start.wf(),
            state@.ledger.dom().finite(),
            state@.n_ledger_entries == state@.ledger.dom().len(),
            state@ == (StateView {
                ledger: Map::new(
                    |j: u128| start.ledger.dom().contains(j) && j >= i,
                    |j: u128| start.ledger[j],
                ),
                n_ledger_entries: state@.n_ledger_entries,
                ..start
            }),
        decreases upto - i,
    {
        let ghost before = state@;
        match state.ledger_entry(i) {
            Some(_) => {
                let n = state.n_ledger_entries();
                assert(n >= 1) by {
                    if before.ledger.dom().len() == 0 {
                        assert(!before.ledger.dom().contains(i));
                    }
                }
                state.remove_ledger_entry(i);
                state.set_n_ledger_entries(n - 1);
            },
            None => {},
        }
        assert(state@.ledger =~= Map::new(
            |j: u128| start.ledger.dom().contains(j) && j >= i + 1,
            |j: u128| start.ledger[j],
        ));
        i += 1;
    }
    proof {
        assert(state@.ledger =~= pruned_ledger(start));
        assert forall|j: u128|
            j < state@.ledger_entry_seq_no && #[trigger] behind(state@.accounts, j)
                >= 1 implies state@.ledger.dom().contains(j) by {
            if j < bound {
                lemma_nobody_behind(start.accounts, j);
            }
        }
        assert forall|j: u128| #[trigger] state@.ledger.dom().contains(j) implies {
            &&& j < state@.ledger_entry_seq_no
            &&& state@.ledger[j].ref_count == behind(state@.accounts, j)
            &&& state@.ledger[j].tag <= state@.n_delegation_mutations
        } by {
            assert(start.ledger.dom().contains(j));
        }
    }
}

/// The revenue of the first `count` streams together.
pub open spec fn streams_revenue(streams: Seq<Keyed<RevenueStream>>, count: int) -> int
    decreases count,
{
    if count <= 0 {
        0
    } else {
        streams_revenue(streams, count - 1) + streams[count - 1].value.revenue
    }
}

/// The sum only grows with the number of streams.
pub proof fn lemma_streams_revenue_grows(streams: Seq<Keyed<RevenueStream>>, fewer: int, more: int)
    requires
        0 <= fewer <= more,
    ensures
        0 <= streams_revenue(streams, fewer) <= streams_revenue(streams, more),
    decreases more,
{
    if fewer < more {
        lemma_streams_revenue_grows(streams, fewer, more - 1);
    } else if fewer > 0 {
        lemma_streams_revenue_grows(streams, fewer - 1, fewer - 1);
    }
}

/// What a migration comes to: the first of the two drops the ledger
/// entries that lie before every account; the second sets the total of
/// plain revenue to what the streams hold together, which is `Overflow`
/// where it does not fit. The counters that the first once set are kept up
/// to date by every operation and need no mending.
pub open spec fn migrate_spec(s: StateView, msg: MigrateMsg) -> Result<StateView, ContractError> {
    match msg {
        MigrateMsg::NoOp {  } => Ok(s),
        MigrateMsg::V0_0_4 {  } => Ok(pruned(s)),
        MigrateMsg::V0_0_5 {  } => if streams_revenue(s.streams, s.streams.len() as int)
            > u128::MAX {
            Err(ContractError::Overflow)
        } else {
            Ok(
                StateView {
                    total_stream_revenue: streams_revenue(s.streams, s.streams.len() as int) as u128,
                    ..s
                },
            )
        },
    }
}

/// Sets the total of plain revenue to what the streams hold together.
pub fn recount_stream_revenue(state: &mut State) -> (r: Result<(), ContractError>)
    requires
        old(state)@.wf(),
    ensures
        match migrate_spec(old(state)@, MigrateMsg::V0_0_5 {  }) {
            Err(e) => r == Err::<(), ContractError>(e) && final(state)@ == old(state)@,
            Ok(s) => r is Ok && final(state)@ == s,
        },
        final(state)@.wf(),
{
    let n = state.streams_len();
    let mut revenue: u128 = 0;
    let mut k: usize = 0;
    while k < n
        invariant
            k <= n == state@.streams.len(),
            state@ == old(state)@,
            state@.wf(),
            revenue == streams_revenue(state@.streams, k as int),
        decreases n - k,
    {
        proof {
            lemma_streams_revenue_grows(state@.streams, k + 1, n as int);
        }
        revenue = match revenue.checked_add(state.stream_at(k).revenue) {
            Some(v) => v,
            None => { return Err(ContractError::Overflow); },
        };
        k += 1;
    }
    let ghost before = state@;
    state.set_total_stream_revenue(revenue);
    proof {
        lemma_wf_frame(before, state@);
    }
    Ok(())
}

/// Migrates the state.
pub fn migrate(state: &mut State, msg: MigrateMsg) -> (r: Result<(), ContractError>)
    requires
        old(state)@.wf(),
    ensures
        match migrate_spec(old(state)@, msg) {
            Err(e) => r == Err::<(), ContractError>(e) && final(state)@ == old(state)@,
            Ok(s) => r is Ok && final(state)@ == s,
        },
        final(state)@.wf(),
{
    match msg {
        MigrateMsg::V0_0_4 {  } => {
            prune(state);
            Ok(())
        },
        MigrateMsg::V0_0_5 {  } => recount_stream_revenue(state),
        MigrateMsg::NoOp {  } => Ok(()),
    }
}

} // verus!
