//! The funds that come along with a call.
use vstd::prelude::*;

use crate::error::ContractError;
use crate::models::Token;

verus! {

/// An amount of one denomination.
#[derive(Debug, Clone, PartialEq, Eq)]
pub struct Coin {
    pub denom: String,
    pub amount: u128,
}

/// The funds hold a coin of the denomination that covers the amount.
pub open spec fn has_funds(funds: Seq<Coin>, amount: u128, denom: Seq<char>) -> bool {
    exists|i: int| 0 <= i < funds.len() && (#[trigger] funds[i]).denom@ == denom && funds[i].amount >= amount
}

/// Refuses funds that hold no coin of the denomination that covers the
/// amount.
pub fn ensure_has_funds(funds: &Vec<Coin>, denom: &String, amount: u128) -> (r: Result<
    (),
    ContractError,
>)
    ensures
        r is Ok <==> has_funds(funds@, amount, denom@),
        r is Err ==> r == Err::<(), ContractError>(ContractError::InsufficientFunds),
{
    let mut i: usize = 0;
    while i < funds.len()
        invariant
            i <= funds@.len(),
            forall|j: int|
                0 <= j < i ==> !((#[trigger] funds@[j]).denom@ == denom@ && funds@[j].amount
                    >= amount),
        decreases funds@.len() - i,
    {
        if funds[i].denom == *denom && funds[i].amount >= amount {
            return Ok(());
        }
        i += 1;
    }
    // The funds are insufficient.
    Err(ContractError::InsufficientFunds)
}

/// Tells how an amount of the pool's token comes in: a native token must
/// have come along with the call; a token of a contract is to be asked of
/// that contract, whose address is handed back.
pub fn ensure_paid(token: &Token, funds: &Vec<Coin>, amount: u128) -> (r: Result<
    Option<String>,
    ContractError,
>)
    ensures
        match *token {
            Token::Native { denom } => if has_funds(funds@, amount, denom@) {
                r == Ok::<Option<String>, ContractError>(None)
            } else {
                r == Err::<Option<String>, ContractError>(ContractError::InsufficientFunds)
            },
            Token::Cw20 { address } => r == Ok::<Option<String>, ContractError>(Some(address)),
        },
{
    match token {
        Token::Native { denom } => {
            ensure_has_funds(funds, denom, amount)?;
            Ok(None)
        },
        Token::Cw20 { address } => Ok(Some(address.clone())),
    }
}

} // verus!
