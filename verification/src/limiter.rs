//! The sliding window that limits what an address may take out of the pool.
use vstd::prelude::*;

use crate::error::ContractError;
use crate::models::BlockInfo;
use crate::models::RateLimitConfig;
use crate::models::RateLimitEvent;
use crate::models::Timestamp;
use crate::models::Usage;
use crate::utils::mul_pct;
use crate::utils::spec_mul_pct;

verus! {

/// The whole seconds from `start` to `now`, and none where `now` is the
/// earlier.
pub open spec fn elapsed_seconds(start: Timestamp, now: Timestamp) -> int {
    if now.spec_seconds() >= start.spec_seconds() {
        now.spec_seconds() - start.spec_seconds()
    } else {
        0
    }
}

/// The record of an address as a movement finds it: a fresh one where the
/// address has none, and one whose window starts anew, at the pool's
/// current liquidity and with nothing moved, where the interval has passed
/// since the window began.
pub open spec fn window_of(
    usage: Option<Usage>,
    now: Timestamp,
    pool_liquidity: u128,
    interval_seconds: u64,
) -> Usage {
    let record = match usage {
        Some(u) => u,
        None => Usage {
            start_liquidity: pool_liquidity,
            start_time: now,
            prev_height: 0,
            spent: 0,
            added: 0,
        },
    };
    if elapsed_seconds(record.start_time, now) >= interval_seconds {
        Usage { start_liquidity: pool_liquidity, start_time: now, spent: 0, added: 0, ..record }
    } else {
        record
    }
}

/// What has left on balance within the window.
pub open spec fn net_spent(usage: Usage) -> int {
    if usage.spent > usage.added {
        usage.spent - usage.added
    } else {
        0
    }
}

/// The address has spent more than it added, by the threshold or more.
pub open spec fn is_over(usage: Usage, threshold: int) -> bool {
    usage.spent > usage.added && usage.spent - usage.added >= threshold
}

/// What the rate limiter says of a movement, and the record of the address
/// after it.
///
/// The threshold is the allowed share of the liquidity at the start of the
/// window. An address that was over it before the movement, or whose
/// record shows an earlier movement in this very block, is throttled; an
/// address without a record has not moved before. One that the movement
/// takes over it has triggered the limit. The movement is recorded either
/// way. A threshold or a sum beyond 128 bits is `Overflow`.
pub open spec fn throttle_spec(
    usage: Option<Usage>,
    block: BlockInfo,
    pool_liquidity: u128,
    incoming: u128,
    outgoing: u128,
    config: RateLimitConfig,
) -> Result<(Option<RateLimitEvent>, Usage), ContractError> {
    let record = window_of(usage, block.time, pool_liquidity, config.interval_seconds);
    let threshold = spec_mul_pct(record.start_liquidity, config.max_pct_change);
    if threshold > u128::MAX || record.added + incoming > u128::MAX || record.spent + outgoing
        > u128::MAX {
        Err(ContractError::Overflow)
    } else {
        let moved = Usage {
            prev_height: block.height,
            added: (record.added + incoming) as u128,
            spent: (record.spent + outgoing) as u128,
            ..record
        };
        let event = if is_over(record, threshold) || (usage is Some && block.height
            == record.prev_height) {
            Some(RateLimitEvent::Throttled)
        } else if is_over(moved, threshold) {
            Some(RateLimitEvent::Triggered)
        } else {
            None
        };
        Ok((event, moved))
    }
}

/// Holds a movement of `incoming` in and `outgoing` out against the limit
/// of an address and records it.
pub fn throttle(
    usage: Option<Usage>,
    block: &BlockInfo,
    pool_liquidity: u128,
    incoming: u128,
    outgoing: u128,
    config: &RateLimitConfig,
) -> (r: Result<(Option<RateLimitEvent>, Usage), ContractError>)
    ensures
        r == throttle_spec(usage, *block, pool_liquidity, incoming, outgoing, *config),
{
    let seen_before = usage.is_some();
    // Get or create the record of the address.
    let mut record = match usage {
        Some(u) => u,
        None => Usage {
            start_liquidity: pool_liquidity,
            start_time: block.time,
            prev_height: 0,
            spent: 0,
            added: 0,
        },
    };
    let now = block.time.seconds();
    let start = record.start_time.seconds();
    let time_delta = if now >= start {
        now - start
    } else {
        0
    };
    if time_delta >= config.interval_seconds {
        // The window has passed: start a new one.
        record.start_liquidity = pool_liquidity;
        record.start_time = block.time;
        record.spent = 0;
        record.added = 0;
    }
    let spending_threshold = mul_pct(record.start_liquidity, config.max_pct_change)?;
    // Look before the movement is counted: is the address over already?
    let throttled = (record.spent > record.added && record.spent - record.added
        >= spending_threshold) || (seen_before && block.height == record.prev_height);
    let added = match record.added.checked_add(incoming) {
        Some(v) => v,
        None => { return Err(ContractError::Overflow); },
    };
    let spent = match record.spent.checked_add(outgoing) {
        Some(v) => v,
        None => { return Err(ContractError::Overflow); },
    };
    record.prev_height = block.height;
    record.added = added;
    record.spent = spent;
    // Tell that the limit is reached without failing, so that the caller can
    // act on it, with a refund for one.
    let event = if throttled {
        Some(RateLimitEvent::Throttled)
    } else if record.spent > record.added && record.spent - record.added >= spending_threshold {
        Some(RateLimitEvent::Triggered)
    } else {
        None
    };
    Ok((event, record))
}

/// Whether a payment of `additional_amount` out to an address would be
/// refused now.
///
/// An address without a record is free. One that has moved in this block is
/// limited. Once its window has passed it is free again. Within the window
/// it is limited where what has left on balance, with the payment, reaches
/// the allowed share of the liquidity at the start of the window. A share
/// beyond 128 bits cannot be reached.
pub open spec fn is_rate_limited_spec(
    usage: Option<Usage>,
    block: BlockInfo,
    config: RateLimitConfig,
    additional_amount: u128,
) -> bool {
    match usage {
        None => false,
        Some(u) => if block.height == u.prev_height {
            true
        } else if elapsed_seconds(u.start_time, block.time) >= config.interval_seconds {
            false
        } else {
            let threshold = spec_mul_pct(u.start_liquidity, config.max_pct_change);
            threshold <= u128::MAX && net_spent(u) + additional_amount >= threshold
        },
    }
}

} // verus!
