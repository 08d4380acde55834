//! Checked arithmetic on amounts and rates.
use cosmwasm_std::CheckedMultiplyRatioError;
use cosmwasm_std::Uint128;
use vstd::prelude::*;

use crate::error::ContractError;
use crate::error::ContractResult;
use crate::models::Client;
use crate::models::ClientConfig;

verus! {

/// The denominator of a rate: a rate of 1_000_000 stands for the whole.
pub const PCT_SCALE: u128 = 1_000_000;

/// Why a ratio could not be computed.
#[derive(Debug, Clone, Copy, PartialEq, Eq, Structural)]
pub enum RatioError {
    DivideByZero,
    Overflow,
}

/// `amount * numerator / denominator`, rounded down, over the unbounded
/// integers.
pub open spec fn ratio(amount: u128, numerator: u128, denominator: u128) -> int {
    (amount as int * numerator as int) / (denominator as int)
}

/// What a checked ratio yields: the rounded-down quotient where the
/// denominator is not zero and the quotient fits 128 bits, else the reason.
pub open spec fn checked_ratio(amount: u128, numerator: u128, denominator: u128) -> Result<
    u128,
    RatioError,
> {
    if denominator == 0 {
        Err(RatioError::DivideByZero)
    } else if ratio(amount, numerator, denominator) > u128::MAX {
        Err(RatioError::Overflow)
    } else {
        Ok(ratio(amount, numerator, denominator) as u128)
    }
}

/// `cosmwasm_std::Uint128::checked_multiply_ratio`: the product is taken in
/// 256 bits and divided with rounding toward zero. A zero denominator and a
/// quotient beyond 128 bits are reported, in that order of precedence. The
/// contract is taken from the crate's source and is not proved here.
#[verifier::external_body]
pub(crate) fn checked_multiply_ratio(amount: u128, numerator: u128, denominator: u128) -> (r:
    Result<u128, RatioError>)
    ensures
        r == checked_ratio(amount, numerator, denominator),
{
    match Uint128::new(amount).checked_multiply_ratio(numerator, denominator) {
        Ok(v) => Ok(v.u128()),
        Err(CheckedMultiplyRatioError::DivideByZero) => Err(RatioError::DivideByZero),
        Err(CheckedMultiplyRatioError::Overflow) => Err(RatioError::Overflow),
    }
}

/// The part of `total` that the rate `pct` stands for, in millionths and
/// rounded down.
pub open spec fn spec_mul_pct(total: u128, pct: u128) -> int {
    ratio(total, pct, PCT_SCALE)
}

/// A rate that is not above the whole takes no more than the total.
pub proof fn lemma_mul_pct_bound(total: u128, pct: u128)
    requires
        pct <= PCT_SCALE,
    ensures
        0 <= spec_mul_pct(total, pct) <= total,
{
    let t = total as int;
    let p = pct as int;
    assert(0 <= (t * p) / 1_000_000 <= t) by (nonlinear_arith)
        requires
            0 <= t,
            0 <= p <= 1_000_000,
    ;
}

/// Scales `total` by `pct` millionths, rounding down.
pub fn mul_pct(total: u128, pct: u128) -> (r: ContractResult<u128>)
    ensures
        spec_mul_pct(total, pct) <= u128::MAX ==> r == Ok::<u128, ContractError>(
            spec_mul_pct(total, pct) as u128,
        ),
        spec_mul_pct(total, pct) > u128::MAX ==> r == Err::<u128, ContractError>(
            ContractError::Overflow,
        ),
{
    match checked_multiply_ratio(total, pct, PCT_SCALE) {
        Ok(v) => Ok(v),
        Err(_) => Err(ContractError::Overflow),
    }
}

/// `value + by`, or `Overflow` where the sum does not fit.
pub fn increment(value: u128, by: u128) -> (r: ContractResult<u128>)
    ensures
        value + by <= u128::MAX ==> r == Ok::<u128, ContractError>((value + by) as u128),
        value + by > u128::MAX ==> r == Err::<u128, ContractError>(ContractError::Overflow),
{
    match value.checked_add(by) {
        Some(v) => Ok(v),
        None => Err(ContractError::Overflow),
    }
}

/// `value - by`, or `InvariantViolation` where `by` is the larger: no amount
/// kept here may fall below zero.
pub fn decrement(value: u128, by: u128) -> (r: ContractResult<u128>)
    ensures
        by <= value ==> r == Ok::<u128, ContractError>((value - by) as u128),
        by > value ==> r == Err::<u128, ContractError>(ContractError::InvariantViolation),
{
    match value.checked_sub(by) {
        Some(v) => Ok(v),
        None => Err(ContractError::InvariantViolation),
    }
}

/// A copy of a text that may be missing.
pub fn clone_text(text: &Option<String>) -> (r: Option<String>)
    ensures
        r == *text,
{
    match text {
        Some(t) => Some(t.clone()),
        None => None,
    }
}

/// A copy of a client's configuration.
pub fn clone_client_config(config: &ClientConfig) -> (r: ClientConfig)
    ensures
        r == *config,
{
    ClientConfig {
        name: clone_text(&config.name),
        description: clone_text(&config.description),
        url: clone_text(&config.url),
        budget: config.budget,
        rate_limit: config.rate_limit,
    }
}

/// A copy of a client.
pub fn clone_client(client: &Client) -> (r: Client)
    ensures
        r == *client,
{
    Client {
        address: clone_text(&client.address),
        config: clone_client_config(&client.config),
        connected_at: client.connected_at,
        is_suspended: client.is_suspended,
        revenue: client.revenue,
        expense: client.expense,
    }
}

} // verus!
