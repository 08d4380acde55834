//! Revenues that follow each other are written to one entry.
use vstd::prelude::*;

use crate::error::ContractError;
use crate::execute::receive::booked;
use crate::execute::receive::receive_spec;
use crate::models::Timestamp;
use crate::transition::amortize_spec;
use crate::transition::amortize_step;
use crate::transition::revenue_split;
use crate::transition::upsert_spec;
use crate::utils::lemma_mul_pct_bound;
use crate::validity::lemma_amortize_step_wf;
use crate::validity::lemma_amortize_wf;
use crate::validity::lemma_receive_core_wf;
use crate::view::StateView;

verus! {

/// One plain revenue: who sends it, when, and how much.
pub struct Receipt {
    pub sender: Seq<char>,
    pub now: Timestamp,
    pub revenue: u128,
}

/// The state after revenues have come in one after the other, with
/// nothing in between.
pub open spec fn receive_all(s: StateView, receipts: Seq<Receipt>) -> Result<StateView, ContractError>
    decreases receipts.len(),
{
    if receipts.len() == 0 {
        Ok(s)
    } else {
        match receive_all(s, receipts.drop_last()) {
            Err(e) => Err(e),
            Ok(s1) => receive_spec(
                s1,
                receipts.last().sender,
                receipts.last().now,
                receipts.last().revenue,
            ),
        }
    }
}

/// What of the revenues is added to liquidity, in all.
pub open spec fn restaked_sum(s: StateView, receipts: Seq<Receipt>) -> int
    decreases receipts.len(),
{
    if receipts.len() == 0 {
        0
    } else {
        restaked_sum(s, receipts.drop_last()) + revenue_split(s, receipts.last().revenue).1
    }
}

/// What of the revenues is paid out as dividends, in all.
pub open spec fn dividends_sum(s: StateView, receipts: Seq<Receipt>) -> int
    decreases receipts.len(),
{
    if receipts.len() == 0 {
        0
    } else {
        dividends_sum(s, receipts.drop_last()) + revenue_split(s, receipts.last().revenue).2
    }
}

/// The sequence number of the entry that takes the next change in: the
/// latest entry while it can still grow, else a new one.
pub open spec fn open_entry(s: StateView) -> u128 {
    if s.latest_is_open() {
        (s.ledger_entry_seq_no - 1) as u128
    } else {
        s.ledger_entry_seq_no
    }
}

/// What the entry that takes the next change in holds already.
pub open spec fn open_deltas(s: StateView) -> (int, int, int) {
    if s.latest_is_open() {
        let latest = s.ledger[(s.ledger_entry_seq_no - 1) as u128];
        (latest.delta_revenue as int, latest.delta_dividends as int, latest.delta_loss as int)
    } else {
        (0, 0, 0)
    }
}

/// A turn of the queue leaves the latest entry, the coalescing tag, the
/// configuration and the end of the ledger as they are, and adds no entry.
pub proof fn lemma_amortize_step_keeps_latest(s: StateView)
    requires
        amortize_step(s) is Ok,
        s.ledger_entry_seq_no > 0,
        s.ledger.dom().contains((s.ledger_entry_seq_no - 1) as u128),
        s.wf(),
    ensures
        ({
            let after = amortize_step(s)->Ok_0.0;
            let latest = (s.ledger_entry_seq_no - 1) as u128;
            &&& after.ledger_entry_seq_no == s.ledger_entry_seq_no
            &&& after.n_delegation_mutations == s.n_delegation_mutations
            &&& after.config == s.config
            &&& after.ledger.dom().contains(latest)
            &&& after.ledger[latest] == s.ledger[latest]
            &&& forall|i: u128| #[trigger]
                after.ledger.dom().contains(i) ==> s.ledger.dom().contains(i)
        }),
{
}

/// The replay in passing leaves the latest entry, the coalescing tag, the
/// configuration and the end of the ledger as they are, and adds no entry.
pub proof fn lemma_amortize_keeps_latest(s: StateView)
    requires
        amortize_spec(s) is Ok,
        s.ledger_entry_seq_no > 0,
        s.ledger.dom().contains((s.ledger_entry_seq_no - 1) as u128),
        s.wf(),
    ensures
        ({
            let after = amortize_spec(s)->Ok_0;
            let latest = (s.ledger_entry_seq_no - 1) as u128;
            &&& after.ledger_entry_seq_no == s.ledger_entry_seq_no
            &&& after.n_delegation_mutations == s.n_delegation_mutations
            &&& after.config == s.config
            &&& after.ledger.dom().contains(latest)
            &&& after.ledger[latest] == s.ledger[latest]
            &&& forall|i: u128| #[trigger]
                after.ledger.dom().contains(i) ==> s.ledger.dom().contains(i)
        }),
{
    lemma_amortize_step_keeps_latest(s);
    let (s1, done) = amortize_step(s)->Ok_0;
    if !done {
        lemma_amortize_step_wf(s);
        lemma_amortize_step_keeps_latest(s1);
    }
}

/// One revenue is added to the entry that takes the next change in, which
/// then is the latest entry and can still grow; no other entry is made.
pub proof fn lemma_receive_coalesces(s: StateView, sender: Seq<char>, now: Timestamp, revenue: u128)
    requires
        s.wf(),
        receive_spec(s, sender, now, revenue) is Ok,
    ensures
        ({
            let after = receive_spec(s, sender, now, revenue)->Ok_0;
            let at = open_entry(s);
            &&& after.wf()
            &&& after.config == s.config
            &&& after.latest_is_open()
            &&& after.ledger_entry_seq_no == at + 1
            &&& after.ledger[at].delta_revenue == open_deltas(s).0 + revenue_split(s, revenue).1
            &&& after.ledger[at].delta_dividends == open_deltas(s).1 + revenue_split(
                s,
                revenue,
            ).2
            &&& after.ledger[at].delta_loss == open_deltas(s).2
            &&& forall|i: u128| #[trigger]
                after.ledger.dom().contains(i) ==> i == at || s.ledger.dom().contains(i)
        }),
{
    lemma_receive_core_wf(s, revenue);
    let (tax, restaked, dividends) = revenue_split(s, revenue);
    let (s1, entry) = upsert_spec(s, restaked as u128, dividends as u128, 0)->Ok_0;
    let at = open_entry(s);
    lemma_mul_pct_bound(revenue, s.config.tax_rate);
    lemma_mul_pct_bound((revenue - tax) as u128, s.config.restake_rate);
    assert(s1.ledger.dom().contains(at));
    assert(s1.ledger[at] == entry);
    assert(s1.ledger_entry_seq_no == at + 1);
    assert(forall|i: u128| #[trigger]
        s1.ledger.dom().contains(i) ==> i == at || s.ledger.dom().contains(i));
    let core = booked(s, sender, now, revenue);
    assert(core.ledger == s1.ledger);
    lemma_amortize_wf(core);
    lemma_amortize_keeps_latest(core);
}

} // verus!
