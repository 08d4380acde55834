//! What one ledger entry, and a run of entries, does to an account.
use vstd::prelude::*;

use crate::error::ContractError;
use crate::models::LedgerEntry;
use crate::models::StakeAccount;
use crate::utils::checked_multiply_ratio;
use crate::utils::ratio;

verus! {

/// The part of `delta` that falls to an account with `liquidity` out of a
/// pool whose liquidity was `snapshot`, rounded down.
pub open spec fn share(delta: u128, liquidity: u128, snapshot: u128) -> int {
    ratio(delta, liquidity, snapshot)
}

/// What one entry does to an account that has not replayed it: the account
/// gains its share of the revenue, loses its share of the loss and is
/// credited its share of the dividends, each in proportion to the liquidity
/// it held before.
///
/// An entry with a zero snapshot or a zero count cannot be owed to anybody,
/// and a balance cannot fall below zero: both are `InvariantViolation`. A
/// share or a balance beyond 128 bits is `Overflow`.
pub open spec fn replay_entry(account: StakeAccount, entry: LedgerEntry) -> Result<
    StakeAccount,
    ContractError,
> {
    let gain = share(entry.delta_revenue, account.liquidity, entry.liquidity);
    let loss = share(entry.delta_loss, account.liquidity, entry.liquidity);
    let dividends = share(entry.delta_dividends, account.liquidity, entry.liquidity);
    if entry.liquidity == 0 || entry.ref_count == 0 {
        Err(ContractError::InvariantViolation)
    } else if gain > u128::MAX || loss > u128::MAX || dividends > u128::MAX {
        Err(ContractError::Overflow)
    } else if account.liquidity + gain > u128::MAX {
        Err(ContractError::Overflow)
    } else if loss > account.liquidity + gain {
        Err(ContractError::InvariantViolation)
    } else if account.dividends + dividends > u128::MAX {
        Err(ContractError::Overflow)
    } else {
        Ok(
            StakeAccount {
                liquidity: (account.liquidity + gain - loss) as u128,
                dividends: (account.dividends + dividends) as u128,
                ..account
            },
        )
    }
}

/// Replays one entry against an account.
pub fn apply_entry(account: &StakeAccount, entry: &LedgerEntry) -> (r: Result<
    StakeAccount,
    ContractError,
>)
    ensures
        r == replay_entry(*account, *entry),
{
    if entry.liquidity == 0 || entry.ref_count == 0 {
        return Err(ContractError::InvariantViolation);
    }
    let gain = match checked_multiply_ratio(
        entry.delta_revenue,
        account.liquidity,
        entry.liquidity,
    ) {
        Ok(v) => v,
        Err(_) => { return Err(ContractError::Overflow); },
    };
    let loss = match checked_multiply_ratio(entry.delta_loss, account.liquidity, entry.liquidity) {
        Ok(v) => v,
        Err(_) => { return Err(ContractError::Overflow); },
    };
    let dividends = match checked_multiply_ratio(
        entry.delta_dividends,
        account.liquidity,
        entry.liquidity,
    ) {
        Ok(v) => v,
        Err(_) => { return Err(ContractError::Overflow); },
    };
    let raised = match account.liquidity.checked_add(gain) {
        Some(v) => v,
        None => { return Err(ContractError::Overflow); },
    };
    let liquidity = match raised.checked_sub(loss) {
        Some(v) => v,
        None => { return Err(ContractError::InvariantViolation); },
    };
    let paid = match account.dividends.checked_add(dividends) {
        Some(v) => v,
        None => { return Err(ContractError::Overflow); },
    };
    Ok(
        StakeAccount {
            is_suspended: account.is_suspended,
            delegation: account.delegation,
            dividends: paid,
            liquidity,
            unbonding: account.unbonding,
            seq_no: account.seq_no,
        },
    )
}

/// The account after it has replayed, in rising order, every entry from its
/// own sequence number up to but not including `upto`. An entry that is
/// missing from the ledger is an `InvariantViolation`; the first entry that
/// cannot be replayed decides the error.
pub open spec fn replay(ledger: Map<u128, LedgerEntry>, account: StakeAccount, upto: u128) -> Result<
    StakeAccount,
    ContractError,
>
    decreases upto - account.seq_no,
{
    if account.seq_no >= upto {
        Ok(account)
    } else if !ledger.dom().contains(account.seq_no) {
        Err(ContractError::InvariantViolation)
    } else {
        match replay_entry(account, ledger[account.seq_no]) {
            Err(e) => Err(e),
            Ok(a) => replay(
                ledger,
                StakeAccount { seq_no: (account.seq_no + 1) as u128, ..a },
                upto,
            ),
        }
    }
}

/// The sequence number up to which a replay runs: all of the ledger where
/// the replay is final, all but the latest entry where it is not, so that
/// an entry that may still grow is never replayed in passing.
pub open spec fn sync_target(seq_no: u128, is_final: bool) -> u128 {
    if seq_no != 0 && !is_final {
        (seq_no - 1) as u128
    } else {
        seq_no
    }
}

/// An entry after one more account has replayed it.
pub open spec fn released(entry: LedgerEntry) -> LedgerEntry {
    LedgerEntry { ref_count: (entry.ref_count - 1) as u32, ..entry }
}

/// The ledger after one account has replayed the entries from `from` up to
/// but not including `to`: each of them has lost one reference, and those
/// that nobody refers to any more are gone.
pub open spec fn release(ledger: Map<u128, LedgerEntry>, from: u128, to: u128) -> Map<
    u128,
    LedgerEntry,
> {
    Map::new(
        |i: u128| ledger.dom().contains(i) && !(from <= i < to && ledger[i].ref_count <= 1),
        |i: u128|
            if from <= i < to {
                released(ledger[i])
            } else {
                ledger[i]
            },
    )
}

/// The entries from `from` up to but not including `to` that the replaying
/// account was the last to refer to, in rising order.
pub open spec fn zombies(ledger: Map<u128, LedgerEntry>, from: u128, to: u128) -> Seq<u128>
    decreases to - from,
{
    if to <= from {
        Seq::empty()
    } else {
        let last = (to - 1) as u128;
        let before = zombies(ledger, from, last);
        if ledger.dom().contains(last) && ledger[last].ref_count <= 1 {
            before.push(last)
        } else {
            before
        }
    }
}

/// The entries from `from` up to but not including `to` that other accounts
/// still refer to, each with one reference less, in rising order.
pub open spec fn updated(ledger: Map<u128, LedgerEntry>, from: u128, to: u128) -> Seq<
    (u128, LedgerEntry),
>
    decreases to - from,
{
    if to <= from {
        Seq::empty()
    } else {
        let last = (to - 1) as u128;
        let before = updated(ledger, from, last);
        if ledger.dom().contains(last) && ledger[last].ref_count > 1 {
            before.push((last, released(ledger[last])))
        } else {
            before
        }
    }
}

/// A replay that succeeds ends at `upto`, or where it began if that is
/// further on, and touches nothing but the two balances and the sequence
/// number.
pub proof fn lemma_replay_keeps(ledger: Map<u128, LedgerEntry>, account: StakeAccount, upto: u128)
    requires
        replay(ledger, account, upto) is Ok,
    ensures
        ({
            let a = replay(ledger, account, upto)->Ok_0;
            &&& a.seq_no == if account.seq_no >= upto {
                account.seq_no
            } else {
                upto
            }
            &&& a.delegation == account.delegation
            &&& a.unbonding == account.unbonding
            &&& a.is_suspended == account.is_suspended
        }),
    decreases upto - account.seq_no,
{
    if account.seq_no < upto {
        let a = replay_entry(account, ledger[account.seq_no])->Ok_0;
        lemma_replay_keeps(ledger, StakeAccount { seq_no: (account.seq_no + 1) as u128, ..a }, upto);
    }
}

/// A replay reads only the entries in its range, and of each only the
/// snapshot, the three deltas and whether its count is zero.
pub proof fn lemma_replay_frame(
    l1: Map<u128, LedgerEntry>,
    l2: Map<u128, LedgerEntry>,
    account: StakeAccount,
    upto: u128,
)
    requires
        forall|i: u128|
            account.seq_no <= i < upto ==> (l1.dom().contains(i) <==> l2.dom().contains(i)),
        forall|i: u128|
            account.seq_no <= i < upto && l1.dom().contains(i) ==> {
                &&& l1[i].liquidity == l2[i].liquidity
                &&& l1[i].delta_revenue == l2[i].delta_revenue
                &&& l1[i].delta_loss == l2[i].delta_loss
                &&& l1[i].delta_dividends == l2[i].delta_dividends
                &&& (l1[i].ref_count == 0 <==> l2[i].ref_count == 0)
            },
    ensures
        replay(l1, account, upto) == replay(l2, account, upto),
    decreases upto - account.seq_no,
{
    if account.seq_no < upto && l1.dom().contains(account.seq_no) {
        let r = replay_entry(account, l1[account.seq_no]);
        assert(r == replay_entry(account, l2[account.seq_no]));
        if r is Ok {
            lemma_replay_frame(
                l1,
                l2,
                StakeAccount { seq_no: (account.seq_no + 1) as u128, ..r->Ok_0 },
                upto,
            );
        }
    }
}

/// A replay that succeeds has found every entry of its range in the ledger,
/// each with a count and a snapshot that are not zero.
pub proof fn lemma_replay_entries(ledger: Map<u128, LedgerEntry>, account: StakeAccount, upto: u128)
    requires
        replay(ledger, account, upto) is Ok,
    ensures
        forall|i: u128|
            account.seq_no <= i < upto ==> {
                &&& #[trigger] ledger.dom().contains(i)
                &&& ledger[i].ref_count >= 1
                &&& ledger[i].liquidity >= 1
            },
    decreases upto - account.seq_no,
{
    if account.seq_no < upto {
        let a = replay_entry(account, ledger[account.seq_no])->Ok_0;
        lemma_replay_entries(ledger, StakeAccount { seq_no: (account.seq_no + 1) as u128, ..a }, upto);
    }
}

/// A replay shortens the ledger by the entries that it was the last to
/// refer to.
pub proof fn lemma_release_len(ledger: Map<u128, LedgerEntry>, from: u128, to: u128)
    requires
        ledger.dom().finite(),
    ensures
        release(ledger, from, to).dom().finite(),
        release(ledger, from, to).dom().len() == ledger.dom().len() - zombies(
            ledger,
            from,
            to,
        ).len(),
    decreases to - from,
{
    if to <= from {
        assert(release(ledger, from, to).dom() =~= ledger.dom());
    } else {
        let last = (to - 1) as u128;
        lemma_release_len(ledger, from, last);
        let shorter = release(ledger, from, last).dom();
        let longer = release(ledger, from, to).dom();
        if ledger.dom().contains(last) && ledger[last].ref_count <= 1 {
            assert(shorter.contains(last));
            assert(longer =~= shorter.remove(last));
        } else {
            assert(longer =~= shorter);
        }
    }
}

} // verus!
