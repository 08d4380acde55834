//! Revenue that comes in from outside any client.
use vstd::prelude::*;

use crate::error::ContractError;
use crate::models::RevenueStream;
use crate::models::Timestamp;
use crate::scheduler::Pending;
use crate::scheduler::amortize_commit;
use crate::scheduler::lemma_leads_to_same;
use crate::state::State;
use crate::state::ensure_min_amount;
use crate::state::upsert_ledger_entry;
use crate::table::value_of;
use crate::table::with_value;
use crate::transition::amortize_spec;
use crate::transition::receive_core;
use crate::transition::revenue_split;
use crate::utils::increment;
use crate::utils::lemma_mul_pct_bound;
use crate::utils::mul_pct;
use crate::validity::lemma_receive_core_wf;
use crate::validity::lemma_wf_frame;
use crate::view::StateView;

verus! {

/// Splits a revenue into the tax, the part that is added to liquidity and
/// the part that is paid out as dividends.
pub fn split_revenue(state: &State, revenue: u128) -> (r: (u128, u128, u128))
    requires
        state@.wf(),
    ensures
        (r.0 as int, r.1 as int, r.2 as int) == revenue_split(state@, revenue),
        r.0 + r.1 + r.2 == revenue,
{
    let config = state.config();
    proof {
        lemma_mul_pct_bound(revenue, config.tax_rate);
    }
    let tax = match mul_pct(revenue, config.tax_rate) {
        Ok(v) => v,
        Err(_) => 0,
    };
    let revenue_post_tax = revenue - tax;
    proof {
        lemma_mul_pct_bound(revenue_post_tax, config.restake_rate);
    }
    let delta_revenue = match mul_pct(revenue_post_tax, config.restake_rate) {
        Ok(v) => v,
        Err(_) => 0,
    };
    (tax, delta_revenue, revenue_post_tax - delta_revenue)
}

/// The stream of an address as a revenue finds it: a fresh one, opened at
/// `now`, where the address has none.
pub open spec fn stream_of(s: StateView, sender: Seq<char>, now: Timestamp) -> RevenueStream {
    match value_of(s.streams, sender) {
        Some(stream) => stream,
        None => RevenueStream { created_at: now, name: None, execution_count: 0, revenue: 0 },
    }
}

/// The books cannot take the revenue in: a count or a sum does not fit.
pub open spec fn books_overflow(s: StateView, sender: Seq<char>, now: Timestamp, revenue: u128) -> bool {
    ||| stream_of(s, sender, now).execution_count == u64::MAX
    ||| stream_of(s, sender, now).revenue + revenue > u128::MAX
    ||| s.total_stream_revenue + revenue > u128::MAX
}

/// The state after plain revenue has been written to the ledger and to the
/// books, and before the queue is turned: the stream of the sender has
/// counted one more revenue and grown by it, and so has the total of all
/// plain revenue.
pub open spec fn booked(s: StateView, sender: Seq<char>, now: Timestamp, revenue: u128) -> StateView {
    let stream = stream_of(s, sender, now);
    StateView {
        streams: with_value(
            s.streams,
            sender,
            RevenueStream {
                execution_count: (stream.execution_count + 1) as u64,
                revenue: (stream.revenue + revenue) as u128,
                ..stream
            },
        ),
        total_stream_revenue: (s.total_stream_revenue + revenue) as u128,
        ..receive_core(s, revenue)->Ok_0
    }
}

/// Taking in plain revenue from a sender: as for a client's revenue, and
/// the books of plain revenue follow.
pub open spec fn receive_spec(s: StateView, sender: Seq<char>, now: Timestamp, revenue: u128) -> Result<
    StateView,
    ContractError,
> {
    match receive_core(s, revenue) {
        Err(e) => Err(e),
        Ok(_) => if books_overflow(s, sender, now, revenue) {
            Err(ContractError::Overflow)
        } else {
            amortize_spec(booked(s, sender, now, revenue))
        },
    }
}

/// Takes `revenue` into the pool from `sender`.
///
/// The tax is set aside; of the rest, the restaked part raises the pool's
/// liquidity and the other part its dividends, and the two are written to
/// the ledger for the accounts to share. The stream of the sender counts
/// the revenue. The queue is turned.
pub fn receive(state: &mut State, sender: &String, now: Timestamp, revenue: u128) -> (r: Result<
    (),
    ContractError,
>)
    requires
        old(state)@.wf(),
    ensures
        match receive_spec(old(state)@, sender@, now, revenue) {
            Err(e) => r == Err::<(), ContractError>(e) && final(state)@ == old(state)@,
            Ok(s) => r is Ok && final(state)@ == s,
        },
        final(state)@.wf(),
{
    ensure_min_amount(revenue, 1)?;
    let (tax, delta_revenue, delta_dividends) = split_revenue(state, revenue);
    let seq_no = state.plan_upsert(delta_revenue, delta_dividends, 0)?;
    let liquidity = increment(state.pool().liquidity, delta_revenue)?;
    let dividends = increment(state.pool().dividends, delta_dividends)?;
    let taxes = increment(state.pool().taxes, tax)?;
    // The stream of the sender counts one more revenue.
    let (count_so_far, revenue_so_far) = match state.stream(sender) {
        Some(stream) => (stream.execution_count, stream.revenue),
        None => (0, 0),
    };
    if count_so_far == u64::MAX {
        return Err(ContractError::Overflow);
    }
    let stream_revenue = increment(revenue_so_far, revenue)?;
    let total = increment(state.total_stream_revenue(), revenue)?;
    let ghost core = booked(state@, sender@, now, revenue);
    proof {
        lemma_receive_core_wf(state@, revenue);
        lemma_wf_frame(receive_core(state@, revenue)->Ok_0, core);
        lemma_leads_to_same(state@, core);
    }
    let pending = Pending { touched: None, pushed: false, seq_no };
    state.check_amortize(&pending, Ghost(core))?;

    // Write the change to the ledger, then raise the pool's totals.
    let written = upsert_ledger_entry(state, delta_revenue, delta_dividends, 0);
    assert(written is Ok);
    let delegation = state.pool().delegation;
    state.set_pool_totals(delegation, liquidity, dividends, taxes);
    state.note_stream(sender, now, count_so_far + 1, stream_revenue);
    state.set_total_stream_revenue(total);
    assert(state@ == core);
    amortize_commit(state);
    Ok(())
}

} // verus!
