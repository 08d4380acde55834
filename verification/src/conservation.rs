//! The pool holds at least what its stakers are owed, as long as it pays nothing out.
use vstd::prelude::*;

use crate::ledger::lemma_replay_keeps;
use crate::ledger::replay;
use crate::ledger::replay_entry;
use crate::ledger::sync_target;
use crate::migrations::lemma_least_cursor;
use crate::migrations::pruned;
use crate::models::LedgerEntry;
use crate::models::StakeAccount;
use crate::models::Timestamp;
use crate::transition::amortize_spec;
use crate::transition::amortize_step;
use crate::transition::claim_core;
use crate::transition::receive_core;
use crate::transition::revenue_split;
use crate::transition::stake_core;
use crate::transition::staked;
use crate::transition::sync_account_spec;
use crate::transition::unstake_core;
use crate::transition::upsert_spec;
use crate::transition::withdraw_core;
use crate::utils::lemma_mul_pct_bound;
use crate::validity::lemma_amortize_step_wf;
use crate::validity::lemma_sync_wf;
use crate::validity::lemma_turned_wf;
use crate::validity::synced;
use crate::validity::turned;
use crate::view::Staker;
use crate::view::StateView;
use crate::view::behind;
use crate::view::behind_weight;
use crate::view::lemma_lookup;
use crate::view::lemma_total_bounds;
use crate::view::lemma_total_push;
use crate::view::lemma_total_remove;
use crate::view::lemma_total_update;
use crate::view::lookup;
use crate::view::total;

verus! {

/// The part of `delta` that falls to a holder of `liquidity` out of a pool
/// whose liquidity was `snapshot`, rounded down; nothing falls to anybody
/// out of an empty pool.
pub open spec fn part(delta: u128, liquidity: int, snapshot: u128) -> int {
    if snapshot == 0 {
        0
    } else {
        (delta * liquidity) / (snapshot as int)
    }
}

/// A liquidity and the dividends beside it, after an entry has been
/// replayed against them.
pub open spec fn grown(held: (int, int), entry: LedgerEntry) -> (int, int) {
    (
        held.0 + part(entry.delta_revenue, held.0, entry.liquidity) - part(
            entry.delta_loss,
            held.0,
            entry.liquidity,
        ),
        held.1 + part(entry.delta_dividends, held.0, entry.liquidity),
    )
}

/// A liquidity and the dividends beside it, after the entries from `from`
/// up to but not including `upto` have been replayed against them, with no
/// regard to the width of any integer.
pub open spec fn projected(ledger: Map<u128, LedgerEntry>, held: (int, int), from: u128, upto: u128) -> (
    int,
    int,
)
    decreases upto - from,
{
    if from >= upto {
        held
    } else {
        projected(
            ledger,
            if ledger.dom().contains(from) {
                grown(held, ledger[from])
            } else {
                held
            },
            (from + 1) as u128,
            upto,
        )
    }
}

/// What an account will hold once it has replayed the ledger up to `upto`.
pub open spec fn outlook(ledger: Map<u128, LedgerEntry>, account: StakeAccount, upto: u128) -> (
    int,
    int,
) {
    projected(ledger, (account.liquidity as int, account.dividends as int), account.seq_no, upto)
}

/// The liquidity that an account will hold once it has replayed the ledger
/// up to `upto`; an unbonding account holds none.
pub open spec fn liquidity_outlook(ledger: Map<u128, LedgerEntry>, upto: u128) -> spec_fn(
    StakeAccount,
) -> int {
    |a: StakeAccount|
        if a.is_active() {
            outlook(ledger, a, upto).0
        } else {
            0int
        }
}

/// The dividends that an account will hold once it has replayed the ledger
/// up to `upto`; an unbonding account holds none.
pub open spec fn dividends_outlook(ledger: Map<u128, LedgerEntry>, upto: u128) -> spec_fn(
    StakeAccount,
) -> int {
    |a: StakeAccount|
        if a.is_active() {
            outlook(ledger, a, upto).1
        } else {
            0int
        }
}

/// No entry of the ledger holds a loss.
pub open spec fn loss_free(ledger: Map<u128, LedgerEntry>) -> bool {
    forall|i: u128| #[trigger] ledger.dom().contains(i) ==> ledger[i].delta_loss == 0
}

/// Two parts of one delta are together no more than the part that falls to
/// the two holders together.
pub proof fn lemma_parts_add(delta: u128, first: int, second: int, snapshot: u128)
    requires
        0 <= first,
        0 <= second,
    ensures
        part(delta, first, snapshot) + part(delta, second, snapshot) <= part(
            delta,
            first + second,
            snapshot,
        ),
        0 <= part(delta, first, snapshot),
{
    if snapshot != 0 {
        let d = delta as int;
        let n = snapshot as int;
        assert((d * first) / n + (d * second) / n <= (d * (first + second)) / n && 0 <= (d * first)
            / n) by (nonlinear_arith)
            requires
                0 <= d,
                0 <= first,
                0 <= second,
                n > 0,
        ;
    }
}

/// The part that falls to a holder of no more than the whole pool is no
/// more than the delta.
pub proof fn lemma_part_bound(delta: u128, liquidity: int, snapshot: u128)
    requires
        0 <= liquidity <= snapshot,
    ensures
        0 <= part(delta, liquidity, snapshot) <= delta,
{
    if snapshot != 0 {
        let d = delta as int;
        let n = snapshot as int;
        assert(0 <= (d * liquidity) / n <= d) by (nonlinear_arith)
            requires
                0 <= d,
                0 <= liquidity <= n,
                n > 0,
        ;
    }
}

/// A projection can be cut in two.
pub proof fn lemma_projected_split(
    ledger: Map<u128, LedgerEntry>,
    held: (int, int),
    from: u128,
    mid: u128,
    upto: u128,
)
    requires
        from <= mid <= upto,
    ensures
        projected(ledger, held, from, upto) == projected(
            ledger,
            projected(ledger, held, from, mid),
            mid,
            upto,
        ),
    decreases mid - from,
{
    if from < mid {
        lemma_projected_split(
            ledger,
            if ledger.dom().contains(from) {
                grown(held, ledger[from])
            } else {
                held
            },
            (from + 1) as u128,
            mid,
            upto,
        );
    }
}

/// The last step of a projection.
pub proof fn lemma_projected_last(ledger: Map<u128, LedgerEntry>, held: (int, int), from: u128, upto: u128)
    requires
        from <= upto < u128::MAX,
    ensures
        projected(ledger, held, from, (upto + 1) as u128) == if ledger.dom().contains(upto) {
            grown(projected(ledger, held, from, upto), ledger[upto])
        } else {
            projected(ledger, held, from, upto)
        },
{
    lemma_projected_split(ledger, held, from, upto, (upto + 1) as u128);
    let at = projected(ledger, held, from, upto);
    assert(projected(ledger, at, upto, (upto + 1) as u128) == projected(
        ledger,
        if ledger.dom().contains(upto) {
            grown(at, ledger[upto])
        } else {
            at
        },
        (upto + 1) as u128,
        (upto + 1) as u128,
    ));
}

/// A projection reads only the entries in its range, and of each only the
/// snapshot and the deltas.
pub proof fn lemma_projected_frame(
    l1: Map<u128, LedgerEntry>,
    l2: Map<u128, LedgerEntry>,
    held: (int, int),
    from: u128,
    upto: u128,
)
    requires
        forall|i: u128| from <= i < upto ==> (l1.dom().contains(i) <==> l2.dom().contains(i)),
        forall|i: u128|
            from <= i < upto && l1.dom().contains(i) ==> {
                &&& l1[i].liquidity == l2[i].liquidity
                &&& l1[i].delta_revenue == l2[i].delta_revenue
                &&& l1[i].delta_loss == l2[i].delta_loss
                &&& l1[i].delta_dividends == l2[i].delta_dividends
            },
    ensures
        projected(l1, held, from, upto) == projected(l2, held, from, upto),
    decreases upto - from,
{
    if from < upto {
        lemma_projected_frame(
            l1,
            l2,
            if l1.dom().contains(from) {
                grown(held, l1[from])
            } else {
                held
            },
            (from + 1) as u128,
            upto,
        );
    }
}

/// Against a ledger without losses nothing that is held shrinks or falls
/// below zero.
pub proof fn lemma_projected_grows(ledger: Map<u128, LedgerEntry>, held: (int, int), from: u128, upto: u128)
    requires
        loss_free(ledger),
        0 <= held.0,
        0 <= held.1,
    ensures
        held.0 <= projected(ledger, held, from, upto).0,
        held.1 <= projected(ledger, held, from, upto).1,
    decreases upto - from,
{
    if from < upto {
        if ledger.dom().contains(from) {
            let e = ledger[from];
            lemma_parts_add(e.delta_revenue, held.0, 0, e.liquidity);
            lemma_parts_add(e.delta_dividends, held.0, 0, e.liquidity);
            assert(part(e.delta_loss, held.0, e.liquidity) == 0) by {
                if e.liquidity != 0 {
                    assert((0 * held.0) / (e.liquidity as int) == 0) by (nonlinear_arith)
                        requires
                            e.liquidity > 0,
                    ;
                }
            }
            lemma_projected_grows(ledger, grown(held, e), (from + 1) as u128, upto);
        } else {
            lemma_projected_grows(ledger, held, (from + 1) as u128, upto);
        }
    }
}

/// An account that has replayed the ledger up to `upto` holds what it was
/// projected to hold.
pub proof fn lemma_replay_is_outlook(ledger: Map<u128, LedgerEntry>, account: StakeAccount, upto: u128)
    requires
        replay(ledger, account, upto) is Ok,
    ensures
        ({
            let a = replay(ledger, account, upto)->Ok_0;
            (a.liquidity as int, a.dividends as int) == outlook(ledger, account, upto)
        }),
    decreases upto - account.seq_no,
{
    if account.seq_no < upto {
        let a = replay_entry(account, ledger[account.seq_no])->Ok_0;
        lemma_replay_is_outlook(
            ledger,
            StakeAccount { seq_no: (account.seq_no + 1) as u128, ..a },
            upto,
        );
    }
}

/// Two lists of accounts of the same length whose weights agree place by
/// place have the same sum.
pub proof fn lemma_total_pointwise(
    first: Seq<Staker>,
    w1: spec_fn(StakeAccount) -> int,
    second: Seq<Staker>,
    w2: spec_fn(StakeAccount) -> int,
)
    requires
        first.len() == second.len(),
        forall|k: int|
            0 <= k < first.len() ==> w1(#[trigger] first[k].account) == w2(second[k].account),
    ensures
        total(first, w1) == total(second, w2),
    decreases first.len(),
{
    if first.len() > 0 {
        assert forall|k: int| 0 <= k < first.drop_last().len() implies w1(
            #[trigger] first.drop_last()[k].account,
        ) == w2(second.drop_last()[k].account) by {
            assert(first.drop_last()[k] == first[k]);
            assert(second.drop_last()[k] == second[k]);
        }
        lemma_total_pointwise(first.drop_last(), w1, second.drop_last(), w2);
        assert(w1(first[first.len() - 1].account) == w2(second[first.len() - 1].account));
    }
}

/// A weight that is the sum of two others sums to the sum of their sums.
pub proof fn lemma_total_adds(
    accounts: Seq<Staker>,
    w1: spec_fn(StakeAccount) -> int,
    w2: spec_fn(StakeAccount) -> int,
    both: spec_fn(StakeAccount) -> int,
)
    requires
        forall|k: int|
            0 <= k < accounts.len() ==> both(#[trigger] accounts[k].account) == w1(
                accounts[k].account,
            ) + w2(accounts[k].account),
    ensures
        total(accounts, both) == total(accounts, w1) + total(accounts, w2),
    decreases accounts.len(),
{
    if accounts.len() > 0 {
        assert forall|k: int| 0 <= k < accounts.drop_last().len() implies both(
            #[trigger] accounts.drop_last()[k].account,
        ) == w1(accounts.drop_last()[k].account) + w2(accounts.drop_last()[k].account) by {
            assert(accounts.drop_last()[k] == accounts[k]);
        }
        lemma_total_adds(accounts.drop_last(), w1, w2, both);
        assert(both(accounts[accounts.len() - 1].account) == w1(
            accounts[accounts.len() - 1].account,
        ) + w2(accounts[accounts.len() - 1].account));
    }
}

/// The parts of one delta that fall to the accounts are together no more
/// than the part that falls to all that they hold together.
pub proof fn lemma_parts_total(
    accounts: Seq<Staker>,
    held: spec_fn(StakeAccount) -> int,
    parts: spec_fn(StakeAccount) -> int,
    delta: u128,
    snapshot: u128,
)
    requires
        forall|k: int| 0 <= k < accounts.len() ==> 0 <= held(#[trigger] accounts[k].account),
        forall|k: int|
            0 <= k < accounts.len() ==> parts(#[trigger] accounts[k].account) == part(
                delta,
                held(accounts[k].account),
                snapshot,
            ),
    ensures
        0 <= total(accounts, held),
        total(accounts, parts) <= part(delta, total(accounts, held), snapshot),
    decreases accounts.len(),
{
    if accounts.len() > 0 {
        let front = accounts.drop_last();
        assert forall|k: int| 0 <= k < front.len() implies 0 <= held(#[trigger] front[k].account)
            && parts(front[k].account) == part(delta, held(front[k].account), snapshot) by {
            assert(front[k] == accounts[k]);
        }
        lemma_parts_total(front, held, parts, delta, snapshot);
        let last = accounts[accounts.len() - 1].account;
        assert(0 <= held(last));
        assert(parts(last) == part(delta, held(last), snapshot));
        lemma_parts_add(delta, total(front, held), held(last), snapshot);
    } else {
        lemma_parts_add(delta, 0, 0, snapshot);
    }
}

/// What the accounts that are not unbonding will hold once they have
/// replayed all of the ledger is covered by the pool's liquidity and
/// dividends, and no entry holds a loss. While the latest entry can still
/// grow, what the accounts will hold when they come to it is covered by its
/// snapshot, and the pool covers that and what the entry has to share out.
pub open spec fn conserved(s: StateView) -> bool {
    let end = s.ledger_entry_seq_no;
    let latest = (end - 1) as u128;
    &&& loss_free(s.ledger)
    &&& total(s.accounts, liquidity_outlook(s.ledger, end)) <= s.pool.liquidity
    &&& total(s.accounts, dividends_outlook(s.ledger, end)) <= s.pool.dividends
    &&& s.latest_is_open() ==> {
        &&& total(s.accounts, liquidity_outlook(s.ledger, latest)) <= s.ledger[latest].liquidity
        &&& s.ledger[latest].liquidity + s.ledger[latest].delta_revenue <= s.pool.liquidity
        &&& total(s.accounts, dividends_outlook(s.ledger, latest))
            + s.ledger[latest].delta_dividends <= s.pool.dividends
    }
}

/// An account that is not unbonding and behind an entry finds the entry in
/// the ledger of a valid state.
pub proof fn lemma_behind_finds(s: StateView, k: int, j: u128)
    requires
        s.wf_ledger(),
        0 <= k < s.accounts.len(),
        s.accounts[k].account.is_active(),
        s.accounts[k].account.seq_no <= j < s.ledger_entry_seq_no,
    ensures
        s.ledger.dom().contains(j),
{
    lemma_total_bounds(s.accounts, behind_weight(j));
    assert(behind_weight(j)(s.accounts[k].account) == 1);
    assert(behind(s.accounts, j) >= 1);
}

/// Bringing an account up to date and writing it back changes nothing of
/// what any account will hold at the end of the replay or beyond.
pub proof fn lemma_sync_keeps_outlook(s: StateView, i: int, is_final: bool, upto: u128)
    requires
        s.wf(),
        0 <= i < s.accounts.len(),
        s.accounts[i].account.is_active(),
        sync_account_spec(s, s.accounts[i].account, is_final) is Ok,
        sync_target(s.ledger_entry_seq_no, is_final) <= upto <= s.ledger_entry_seq_no,
    ensures
        ({
            let after = synced(s, i, is_final);
            &&& total(after.accounts, liquidity_outlook(after.ledger, upto)) == total(
                s.accounts,
                liquidity_outlook(s.ledger, upto),
            )
            &&& total(after.accounts, dividends_outlook(after.ledger, upto)) == total(
                s.accounts,
                dividends_outlook(s.ledger, upto),
            )
            &&& loss_free(s.ledger) ==> loss_free(after.ledger)
        }),
{
    let after = synced(s, i, is_final);
    let account = s.accounts[i].account;
    let target = sync_target(s.ledger_entry_seq_no, is_final);
    lemma_sync_wf(s, i, is_final);
    if s.n_ledger_entries == 0 {
        assert(after.accounts =~= s.accounts);
    } else {
        let replayed = replay(s.ledger, account, target)->Ok_0;
        lemma_replay_is_outlook(s.ledger, account, target);
        lemma_replay_keeps(s.ledger, account, target);
        assert forall|k: int| 0 <= k < s.accounts.len() implies outlook(
            s.ledger,
            (#[trigger] s.accounts[k]).account,
            upto,
        ) == outlook(after.ledger, after.accounts[k].account, upto) || !s.accounts[k].account.is_active() by {
            let a = s.accounts[k].account;
            if a.is_active() {
                let b = after.accounts[k].account;
                if k == i && account.seq_no < target {
                    lemma_projected_split(
                        s.ledger,
                        (a.liquidity as int, a.dividends as int),
                        a.seq_no,
                        target,
                        upto,
                    );
                }
                assert(outlook(s.ledger, a, upto) == outlook(s.ledger, b, upto));
                assert forall|j: u128| b.seq_no <= j < upto implies (s.ledger.dom().contains(j)
                    <==> after.ledger.dom().contains(j)) by {
                    lemma_behind_finds(s, k, j);
                    lemma_behind_finds(after, k, j);
                }
                lemma_projected_frame(
                    s.ledger,
                    after.ledger,
                    (b.liquidity as int, b.dividends as int),
                    b.seq_no,
                    upto,
                );
            }
        }
        assert forall|k: int| 0 <= k < s.accounts.len() implies liquidity_outlook(s.ledger, upto)(
            #[trigger] s.accounts[k].account,
        ) == liquidity_outlook(after.ledger, upto)(after.accounts[k].account) by {
            assert(outlook(s.ledger, s.accounts[k].account, upto) == outlook(
                after.ledger,
                after.accounts[k].account,
                upto,
            ) || !s.accounts[k].account.is_active());
        }
        assert forall|k: int| 0 <= k < s.accounts.len() implies dividends_outlook(s.ledger, upto)(
            #[trigger] s.accounts[k].account,
        ) == dividends_outlook(after.ledger, upto)(after.accounts[k].account) by {
            assert(outlook(s.ledger, s.accounts[k].account, upto) == outlook(
                after.ledger,
                after.accounts[k].account,
                upto,
            ) || !s.accounts[k].account.is_active());
        }
        lemma_total_pointwise(
            s.accounts,
            liquidity_outlook(s.ledger, upto),
            after.accounts,
            liquidity_outlook(after.ledger, upto),
        );
        lemma_total_pointwise(
            s.accounts,
            dividends_outlook(s.ledger, upto),
            after.accounts,
            dividends_outlook(after.ledger, upto),
        );
    }
}

/// Nothing falls to a holder of nothing, and nothing of a delta of nothing
/// falls to anybody.
pub proof fn lemma_part_of_nothing(delta: u128, liquidity: int, snapshot: u128)
    ensures
        part(delta, 0, snapshot) == 0,
        part(0, liquidity, snapshot) == 0,
{
    if snapshot != 0 {
        let d = delta as int;
        let n = snapshot as int;
        assert((d * 0) / n == 0 && (0 * liquidity) / n == 0) by (nonlinear_arith)
            requires
                n > 0,
        ;
    }
}

/// When the accounts come to an entry that holds no loss and whose
/// snapshot covers what they hold by then, they take no more out of it
/// together than the entry has to share out.
pub proof fn lemma_extend(accounts: Seq<Staker>, ledger: Map<u128, LedgerEntry>, at: u128)
    requires
        at < u128::MAX,
        ledger.dom().contains(at),
        loss_free(ledger),
        forall|k: int|
            0 <= k < accounts.len() && (#[trigger] accounts[k]).account.is_active()
                ==> accounts[k].account.seq_no <= at,
        total(accounts, liquidity_outlook(ledger, at)) <= ledger[at].liquidity,
    ensures
        total(accounts, liquidity_outlook(ledger, (at + 1) as u128)) <= total(
            accounts,
            liquidity_outlook(ledger, at),
        ) + ledger[at].delta_revenue,
        total(accounts, dividends_outlook(ledger, (at + 1) as u128)) <= total(
            accounts,
            dividends_outlook(ledger, at),
        ) + ledger[at].delta_dividends,
{
    let entry = ledger[at];
    let next = (at + 1) as u128;
    let held = liquidity_outlook(ledger, at);
    let gains = |a: StakeAccount| part(entry.delta_revenue, held(a), entry.liquidity);
    let payouts = |a: StakeAccount| part(entry.delta_dividends, held(a), entry.liquidity);
    assert forall|k: int| 0 <= k < accounts.len() implies {
        &&& 0 <= held(#[trigger] accounts[k].account)
        &&& liquidity_outlook(ledger, next)(accounts[k].account) == held(accounts[k].account)
            + gains(accounts[k].account)
        &&& dividends_outlook(ledger, next)(accounts[k].account) == dividends_outlook(ledger, at)(
            accounts[k].account,
        ) + payouts(accounts[k].account)
    } by {
        let a = accounts[k].account;
        lemma_part_of_nothing(entry.delta_revenue, 0, entry.liquidity);
        lemma_part_of_nothing(entry.delta_dividends, 0, entry.liquidity);
        if a.is_active() {
            let own = (a.liquidity as int, a.dividends as int);
            lemma_projected_grows(ledger, own, a.seq_no, at);
            lemma_projected_last(ledger, own, a.seq_no, at);
            lemma_part_of_nothing(0, outlook(ledger, a, at).0, entry.liquidity);
        }
    }
    lemma_total_adds(accounts, held, gains, liquidity_outlook(ledger, next));
    lemma_total_adds(accounts, dividends_outlook(ledger, at), payouts, dividends_outlook(ledger, next));
    lemma_parts_total(accounts, held, gains, entry.delta_revenue, entry.liquidity);
    lemma_parts_total(accounts, held, payouts, entry.delta_dividends, entry.liquidity);
    lemma_part_bound(entry.delta_revenue, total(accounts, held), entry.liquidity);
    lemma_part_bound(entry.delta_dividends, total(accounts, held), entry.liquidity);
}

/// What the accounts will hold when they come to an entry does not depend
/// on that entry nor on the ones after it.
pub proof fn lemma_outlook_before(
    accounts: Seq<Staker>,
    l1: Map<u128, LedgerEntry>,
    l2: Map<u128, LedgerEntry>,
    upto: u128,
)
    requires
        forall|i: u128| i < upto ==> (l1.dom().contains(i) <==> l2.dom().contains(i)),
        forall|i: u128| i < upto && l1.dom().contains(i) ==> l1[i] == l2[i],
    ensures
        total(accounts, liquidity_outlook(l1, upto)) == total(
            accounts,
            liquidity_outlook(l2, upto),
        ),
        total(accounts, dividends_outlook(l1, upto)) == total(
            accounts,
            dividends_outlook(l2, upto),
        ),
{
    assert forall|k: int| 0 <= k < accounts.len() implies liquidity_outlook(l1, upto)(
        #[trigger] accounts[k].account,
    ) == liquidity_outlook(l2, upto)(accounts[k].account) && dividends_outlook(l1, upto)(
        accounts[k].account,
    ) == dividends_outlook(l2, upto)(accounts[k].account) by {
        let a = accounts[k].account;
        lemma_projected_frame(l1, l2, (a.liquidity as int, a.dividends as int), a.seq_no, upto);
    }
    lemma_total_pointwise(
        accounts,
        liquidity_outlook(l1, upto),
        accounts,
        liquidity_outlook(l2, upto),
    );
    lemma_total_pointwise(
        accounts,
        dividends_outlook(l1, upto),
        accounts,
        dividends_outlook(l2, upto),
    );
}

/// Conservation rests on the accounts, the ledger, its end, the coalescing
/// tag and the pool's liquidity and dividends alone.
pub proof fn lemma_conserved_frame(s: StateView, after: StateView)
    requires
        conserved(s),
        after.accounts == s.accounts,
        after.ledger == s.ledger,
        after.ledger_entry_seq_no == s.ledger_entry_seq_no,
        after.n_delegation_mutations == s.n_delegation_mutations,
        after.pool.liquidity >= s.pool.liquidity,
        after.pool.dividends >= s.pool.dividends,
    ensures
        conserved(after),
{
}

/// Writing revenue to the ledger and raising the pool's liquidity and
/// dividends by it keeps conservation.
pub proof fn lemma_upsert_conserved(s: StateView, restaked: u128, dividends: u128, after: StateView)
    requires
        s.wf(),
        conserved(s),
        upsert_spec(s, restaked, dividends, 0) is Ok,
        after.accounts == s.accounts,
        after.ledger == upsert_spec(s, restaked, dividends, 0)->Ok_0.0.ledger,
        after.ledger_entry_seq_no == upsert_spec(
            s,
            restaked,
            dividends,
            0,
        )->Ok_0.0.ledger_entry_seq_no,
        after.n_delegation_mutations == s.n_delegation_mutations,
        after.pool.liquidity == s.pool.liquidity + restaked,
        after.pool.dividends == s.pool.dividends + dividends,
    ensures
        conserved(after),
        after.latest_is_open(),
{
    let end = s.ledger_entry_seq_no;
    let at = if s.latest_is_open() {
        (end - 1) as u128
    } else {
        end
    };
    assert(after.ledger.dom().contains(at));
    assert(after.ledger_entry_seq_no == at + 1);
    assert(after.latest_is_open());
    assert(loss_free(after.ledger)) by {
        assert forall|i: u128| #[trigger] after.ledger.dom().contains(i) implies after.ledger[i].delta_loss
            == 0 by {
            if i != at {
                assert(s.ledger.dom().contains(i));
            }
        }
    }
    assert forall|i: u128| i < at implies (s.ledger.dom().contains(i)
        <==> after.ledger.dom().contains(i)) by {}
    lemma_outlook_before(s.accounts, s.ledger, after.ledger, at);
    assert(total(s.accounts, liquidity_outlook(s.ledger, at)) <= after.ledger[at].liquidity);
    lemma_extend(after.accounts, after.ledger, at);
}

/// A turn of the queue keeps conservation.
pub proof fn lemma_amortize_step_conserved(s: StateView)
    requires
        s.wf(),
        conserved(s),
        amortize_step(s) is Ok,
    ensures
        conserved(amortize_step(s)->Ok_0.0),
{
    if s.memoization_queue.len() > 0 {
        let address = s.memoization_queue[0];
        lemma_lookup(s.accounts, address);
        match lookup(s.accounts, address) {
            Some(i) => {
                let account = s.accounts[i].account;
                if account.is_active() && account.seq_no < s.ledger_entry_seq_no {
                    let after = amortize_step(s)->Ok_0.0;
                    let end = s.ledger_entry_seq_no;
                    let latest = (end - 1) as u128;
                    lemma_turned_wf(s);
                    assert(after == synced(turned(s), i, false));
                    lemma_sync_keeps_outlook(turned(s), i, false, end);
                    lemma_sync_keeps_outlook(turned(s), i, false, latest);
                    if after.latest_is_open() {
                        assert(s.latest_is_open());
                        assert(after.ledger[latest] == s.ledger[latest]);
                    }
                }
            },
            None => {},
        }
    }
}

/// The replay in passing keeps conservation.
pub proof fn lemma_amortize_conserved(s: StateView)
    requires
        s.wf(),
        conserved(s),
        amortize_spec(s) is Ok,
    ensures
        conserved(amortize_spec(s)->Ok_0),
{
    lemma_amortize_step_conserved(s);
    let (s1, done) = amortize_step(s)->Ok_0;
    if !done {
        lemma_amortize_step_wf(s);
        lemma_amortize_step_conserved(s1);
    }
}

/// What the accounts will hold at the end of the ledger after one of them
/// has been brought up to date for good and rewritten: what they would have
/// held, less what the one account held after the replay, plus what it holds
/// now.
pub proof fn lemma_retouch_outlook(
    s: StateView,
    i: int,
    account: StakeAccount,
    accounts: Seq<Staker>,
)
    requires
        s.wf(),
        0 <= i < s.accounts.len(),
        s.accounts[i].account.is_active(),
        sync_account_spec(s, s.accounts[i].account, true) is Ok,
        account.seq_no == s.ledger_entry_seq_no,
        accounts == synced(s, i, true).accounts.update(
            i,
            Staker { address: s.accounts[i].address, account },
        ),
    ensures
        ({
            let ledger = synced(s, i, true).ledger;
            let a1 = sync_account_spec(s, s.accounts[i].account, true)->Ok_0.1;
            let end = s.ledger_entry_seq_no;
            &&& total(accounts, liquidity_outlook(ledger, end)) == total(
                s.accounts,
                liquidity_outlook(s.ledger, end),
            ) - a1.liquidity + if account.is_active() {
                account.liquidity as int
            } else {
                0
            }
            &&& total(accounts, dividends_outlook(ledger, end)) == total(
                s.accounts,
                dividends_outlook(s.ledger, end),
            ) - a1.dividends + if account.is_active() {
                account.dividends as int
            } else {
                0
            }
            &&& loss_free(s.ledger) ==> loss_free(ledger)
        }),
{
    let end = s.ledger_entry_seq_no;
    let after = synced(s, i, true);
    lemma_sync_wf(s, i, true);
    lemma_sync_keeps_outlook(s, i, true, end);
    let staker = Staker { address: s.accounts[i].address, account };
    lemma_total_update(after.accounts, liquidity_outlook(after.ledger, end), i, staker);
    lemma_total_update(after.accounts, dividends_outlook(after.ledger, end), i, staker);
}

/// Staking keeps conservation.
pub proof fn lemma_stake_conserved(s: StateView, address: Seq<char>, amount: u128)
    requires
        s.wf(),
        conserved(s),
        stake_core(s, address, amount) is Ok,
    ensures
        conserved(stake_core(s, address, amount)->Ok_0),
{
    let core = stake_core(s, address, amount)->Ok_0;
    let end = s.ledger_entry_seq_no;
    lemma_lookup(s.accounts, address);
    match lookup(s.accounts, address) {
        Some(i) => {
            let a1 = sync_account_spec(s, s.accounts[i].account, true)->Ok_0.1;
            lemma_sync_wf(s, i, true);
            assert(core.accounts =~= synced(s, i, true).accounts.update(
                i,
                Staker { address: s.accounts[i].address, account: staked(a1, amount) },
            ));
            lemma_retouch_outlook(s, i, staked(a1, amount), core.accounts);
        },
        None => {
            let staker = core.accounts.last();
            lemma_total_push(s.accounts, liquidity_outlook(s.ledger, end), staker);
            lemma_total_push(s.accounts, dividends_outlook(s.ledger, end), staker);
        },
    }
}

/// Unstaking keeps conservation.
pub proof fn lemma_unstake_conserved(s: StateView, address: Seq<char>, now: Timestamp)
    requires
        s.wf(),
        conserved(s),
        unstake_core(s, address, now) is Ok,
    ensures
        conserved(unstake_core(s, address, now)->Ok_0.0),
{
    let core = unstake_core(s, address, now)->Ok_0.0;
    lemma_lookup(s.accounts, address);
    let i = lookup(s.accounts, address)->Some_0;
    lemma_sync_wf(s, i, true);
    assert(core.accounts =~= synced(s, i, true).accounts.update(
        i,
        Staker { address: s.accounts[i].address, account: core.accounts[i].account },
    ));
    lemma_retouch_outlook(s, i, core.accounts[i].account, core.accounts);
}

/// Claiming keeps conservation.
pub proof fn lemma_claim_conserved(s: StateView, address: Seq<char>)
    requires
        s.wf(),
        conserved(s),
        claim_core(s, address) is Ok,
    ensures
        conserved(claim_core(s, address)->Ok_0.0),
{
    let core = claim_core(s, address)->Ok_0.0;
    lemma_lookup(s.accounts, address);
    let i = lookup(s.accounts, address)->Some_0;
    lemma_sync_wf(s, i, true);
    assert(core.accounts =~= synced(s, i, true).accounts.update(
        i,
        Staker { address: s.accounts[i].address, account: core.accounts[i].account },
    ));
    lemma_retouch_outlook(s, i, core.accounts[i].account, core.accounts);
}

/// Withdrawing keeps conservation.
pub proof fn lemma_withdraw_conserved(s: StateView, address: Seq<char>, now: Timestamp)
    requires
        s.wf(),
        conserved(s),
        withdraw_core(s, address, now) is Ok,
    ensures
        conserved(withdraw_core(s, address, now)->Ok_0.0),
{
    let end = s.ledger_entry_seq_no;
    let latest = (end - 1) as u128;
    lemma_lookup(s.accounts, address);
    let i = lookup(s.accounts, address)->Some_0;
    lemma_total_remove(s.accounts, liquidity_outlook(s.ledger, end), i);
    lemma_total_remove(s.accounts, dividends_outlook(s.ledger, end), i);
    lemma_total_remove(s.accounts, liquidity_outlook(s.ledger, latest), i);
    lemma_total_remove(s.accounts, dividends_outlook(s.ledger, latest), i);
}

/// Taking in revenue keeps conservation.
pub proof fn lemma_receive_conserved(s: StateView, revenue: u128)
    requires
        s.wf(),
        conserved(s),
        receive_core(s, revenue) is Ok,
    ensures
        conserved(receive_core(s, revenue)->Ok_0),
{
    let (tax, restaked, dividends) = revenue_split(s, revenue);
    lemma_mul_pct_bound(revenue, s.config.tax_rate);
    lemma_mul_pct_bound((revenue - tax) as u128, s.config.restake_rate);
    lemma_upsert_conserved(s, restaked as u128, dividends as u128, receive_core(s, revenue)->Ok_0);
}

/// Dropping the entries that lie before every account keeps conservation.
pub proof fn lemma_pruned_conserved(s: StateView)
    requires
        s.wf(),
        conserved(s),
    ensures
        conserved(pruned(s)),
{
    let after = pruned(s);
    let end = s.ledger_entry_seq_no;
    let latest = (end - 1) as u128;
    lemma_least_cursor(s.accounts);
    assert forall|k: int, upto: u128| 0 <= k < s.accounts.len() implies outlook(
        s.ledger,
        (#[trigger] s.accounts[k]).account,
        upto,
    ) == #[trigger] outlook(after.ledger, s.accounts[k].account, upto) by {
        let a = s.accounts[k].account;
        lemma_projected_frame(
            s.ledger,
            after.ledger,
            (a.liquidity as int, a.dividends as int),
            a.seq_no,
            upto,
        );
    }
    assert forall|k: int| 0 <= k < s.accounts.len() implies {
        &&& liquidity_outlook(s.ledger, end)(#[trigger] s.accounts[k].account)
            == liquidity_outlook(after.ledger, end)(s.accounts[k].account)
        &&& dividends_outlook(s.ledger, end)(s.accounts[k].account) == dividends_outlook(
            after.ledger,
            end,
        )(s.accounts[k].account)
        &&& liquidity_outlook(s.ledger, latest)(s.accounts[k].account) == liquidity_outlook(
            after.ledger,
            latest,
        )(s.accounts[k].account)
        &&& dividends_outlook(s.ledger, latest)(s.accounts[k].account) == dividends_outlook(
            after.ledger,
            latest,
        )(s.accounts[k].account)
    } by {
        let a = s.accounts[k];
        assert(outlook(s.ledger, a.account, end) == outlook(after.ledger, a.account, end));
        assert(outlook(s.ledger, a.account, latest) == outlook(after.ledger, a.account, latest));
    }
    lemma_total_pointwise(
        s.accounts,
        liquidity_outlook(s.ledger, end),
        s.accounts,
        liquidity_outlook(after.ledger, end),
    );
    lemma_total_pointwise(
        s.accounts,
        dividends_outlook(s.ledger, end),
        s.accounts,
        dividends_outlook(after.ledger, end),
    );
    lemma_total_pointwise(
        s.accounts,
        liquidity_outlook(s.ledger, latest),
        s.accounts,
        liquidity_outlook(after.ledger, latest),
    );
    lemma_total_pointwise(
        s.accounts,
        dividends_outlook(s.ledger, latest),
        s.accounts,
        dividends_outlook(after.ledger, latest),
    );
}

} // verus!
