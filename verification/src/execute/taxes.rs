//! Who gets the taxes, and paying them out.
use vstd::prelude::*;

use crate::error::ContractError;
use crate::execute::admin::ensure_sender_is_allowed;
use crate::execute::admin::is_allowed;
use crate::models::AccountTokenAmount;
use crate::models::TaxRecipient;
use crate::order::rising;
use crate::order::rising_from;
use crate::order::views;
use crate::state::State;
use crate::table::Keyed;
use crate::table::Table;
use crate::table::addresses_of;
use crate::table::lemma_position;
use crate::table::with_value;
use crate::transition::with_totals;
use crate::utils::PCT_SCALE;
use crate::utils::clone_text;
use crate::utils::lemma_mul_pct_bound;
use crate::utils::mul_pct;
use crate::utils::spec_mul_pct;
use crate::view::StateView;

verus! {

/// A recipient as it is kept: without its address, which is its key.
pub open spec fn kept(recipient: TaxRecipient) -> TaxRecipient {
    TaxRecipient { address: None, ..recipient }
}

/// The recipients with some more set: each one that names an address is
/// kept under it, in place of the one that was there if any was. A part
/// above the whole is a `ValidationError`.
pub open spec fn with_recipients(table: Seq<Keyed<TaxRecipient>>, recipients: Seq<TaxRecipient>) -> Result<
    Seq<Keyed<TaxRecipient>>,
    ContractError,
>
    decreases recipients.len(),
{
    if recipients.len() == 0 {
        Ok(table)
    } else {
        match with_recipients(table, recipients.drop_last()) {
            Err(e) => Err(e),
            Ok(t) => {
                let recipient = recipients.last();
                match recipient.address {
                    None => Ok(t),
                    Some(address) => if recipient.pct > PCT_SCALE {
                        Err(ContractError::ValidationError)
                    } else {
                        Ok(with_value(t, address@, kept(recipient)))
                    },
                }
            },
        }
    }
}

/// Setting recipients fails as a whole where it fails for some of them.
pub proof fn lemma_recipients_fail(
    table: Seq<Keyed<TaxRecipient>>,
    recipients: Seq<TaxRecipient>,
    k: int,
)
    requires
        0 <= k <= recipients.len(),
        with_recipients(table, recipients.take(k)) is Err,
    ensures
        with_recipients(table, recipients) == with_recipients(table, recipients.take(k)),
    decreases recipients.len() - k,
{
    if k < recipients.len() {
        assert(recipients.take(k + 1).drop_last() =~= recipients.take(k));
        lemma_recipients_fail(table, recipients, k + 1);
    } else {
        assert(recipients.take(k) =~= recipients);
    }
}

/// No recipient of the table takes more than the whole.
pub open spec fn parts_are_valid(table: Seq<Keyed<TaxRecipient>>) -> bool {
    forall|k: int| 0 <= k < table.len() ==> (#[trigger] table[k]).value.pct <= PCT_SCALE
}

/// Sets some more recipients in a table.
fn add_recipients(table: Table<TaxRecipient>, recipients: &Vec<TaxRecipient>) -> (r: Result<
    Table<TaxRecipient>,
    ContractError,
>)
    requires
        parts_are_valid(table@),
    ensures
        match with_recipients(table@, recipients@) {
            Err(e) => r == Err::<Table<TaxRecipient>, ContractError>(e),
            Ok(t) => r is Ok && r->Ok_0@ == t && parts_are_valid(t),
        },
{
    let mut current = table;
    let mut k: usize = 0;
    while k < recipients.len()
        invariant
            k <= recipients@.len(),
            parts_are_valid(current@),
            with_recipients(table@, recipients@.take(k as int)) == Ok::<
                Seq<Keyed<TaxRecipient>>,
                ContractError,
            >(current@),
        decreases recipients@.len() - k,
    {
        let recipient = &recipients[k];
        proof {
            assert(recipients@.take(k + 1).drop_last() =~= recipients@.take(k as int));
            assert(recipients@.take(k + 1).last() == recipients@[k as int]);
            if with_recipients(table@, recipients@.take(k + 1)) is Err {
                lemma_recipients_fail(table@, recipients@, k + 1);
            }
        }
        match &recipient.address {
            Some(address) => {
                if recipient.pct > PCT_SCALE {
                    return Err(ContractError::ValidationError);
                }
                proof {
                    lemma_position(current@, address@);
                }
                current.put(
                    address,
                    TaxRecipient {
                        address: None,
                        pct: recipient.pct,
                        name: clone_text(&recipient.name),
                        description: clone_text(&recipient.description),
                        url: clone_text(&recipient.url),
                    },
                );
            },
            None => {},
        }
        k += 1;
    }
    assert(recipients@.take(k as int) =~= recipients@);
    Ok(current)
}

/// Sets some more tax recipients.
pub fn insert_tax_recipients(state: &mut State, recipients: &Vec<TaxRecipient>) -> (r: Result<
    (),
    ContractError,
>)
    requires
        old(state)@.wf(),
    ensures
        match with_recipients(old(state)@.tax_recipients, recipients@) {
            Err(e) => r == Err::<(), ContractError>(e) && final(state)@ == old(state)@,
            Ok(t) => r is Ok && final(state)@ == (StateView { tax_recipients: t, ..old(state)@ }),
        },
        final(state)@.wf(),
{
    let mut table: Table<TaxRecipient> = Table::new();
    let mut k: usize = 0;
    while k < state.tax_recipients_len()
        invariant
            k <= state@.tax_recipients.len(),
            table@ == state@.tax_recipients.take(k as int),
        decreases state@.tax_recipients.len() - k,
    {
        let recipient = state.tax_recipient_at(k);
        table.push(
            state.tax_recipient_address_at(k).clone(),
            TaxRecipient {
                address: clone_text(&recipient.address),
                pct: recipient.pct,
                name: clone_text(&recipient.name),
                description: clone_text(&recipient.description),
                url: clone_text(&recipient.url),
            },
        );
        assert(table@ =~= state@.tax_recipients.take(k + 1));
        k += 1;
    }
    assert(table@ =~= state@.tax_recipients);
    let table = add_recipients(table, recipients)?;
    state.set_tax_recipients(table);
    Ok(())
}

/// Setting the taxes: the recipients replace those that were set.
pub open spec fn set_taxes_spec(
    s: StateView,
    sender: Seq<char>,
    acl_allows: bool,
    recipients: Seq<TaxRecipient>,
) -> Result<StateView, ContractError> {
    if !is_allowed(s.owner, sender, acl_allows) {
        Err(ContractError::NotAuthorized)
    } else {
        match with_recipients(Seq::empty(), recipients) {
            Err(e) => Err(e),
            Ok(t) => Ok(StateView { tax_recipients: t, ..s }),
        }
    }
}

/// Replaces the tax recipients.
pub fn set_taxes(state: &mut State, sender: &String, acl_allows: bool, recipients: &Vec<TaxRecipient>) -> (r:
    Result<(), ContractError>)
    requires
        old(state)@.wf(),
    ensures
        match set_taxes_spec(old(state)@, sender@, acl_allows, recipients@) {
            Err(e) => r == Err::<(), ContractError>(e) && final(state)@ == old(state)@,
            Ok(s) => r is Ok && final(state)@ == s,
        },
        final(state)@.wf(),
{
    ensure_sender_is_allowed(state.owner(), sender, acl_allows)?;
    let table = add_recipients(Table::new(), recipients)?;
    state.set_tax_recipients(table);
    Ok(())
}

/// What the recipients at the first `count` places of `order` are paid out
/// of `taxes`, each taking its part of what those before it have left, and
/// what is left after them.
pub open spec fn taxes_paid(
    recipients: Seq<Keyed<TaxRecipient>>,
    order: Seq<int>,
    taxes: u128,
    count: int,
) -> (Seq<(Seq<char>, u128)>, u128)
    decreases count,
{
    if count <= 0 {
        (Seq::empty(), taxes)
    } else {
        let (paid, left) = taxes_paid(recipients, order, taxes, count - 1);
        let recipient = recipients[order[count - 1]];
        let amount = spec_mul_pct(left, recipient.value.pct) as u128;
        (paid.push((recipient.address, amount)), (left - amount) as u128)
    }
}

/// Paying the taxes out: the recipients take their turns in rising order of
/// address, each taking its part of what is left, and what is left after
/// the last one is added to the pool's liquidity.
pub open spec fn pay_taxes_spec(s: StateView, sender: Seq<char>, acl_allows: bool) -> Result<
    (StateView, Seq<(Seq<char>, u128)>),
    ContractError,
> {
    let order = rising_from(addresses_of(s.tax_recipients), None, s.tax_recipients.len());
    let (paid, left) = taxes_paid(s.tax_recipients, order, s.pool.taxes, order.len() as int);
    if !is_allowed(s.owner, sender, acl_allows) {
        Err(ContractError::NotAuthorized)
    } else if s.pool.liquidity + left > u128::MAX {
        Err(ContractError::Overflow)
    } else {
        Ok(
            (
                with_totals(
                    s,
                    s.pool.delegation as int,
                    s.pool.liquidity + left,
                    s.pool.dividends as int,
                    0,
                ),
                paid,
            ),
        )
    }
}

/// Pays the taxes that have been set aside out to the recipients, in rising
/// order of address, and tells who is to get how much.
pub fn pay_taxes(state: &mut State, sender: &String, acl_allows: bool) -> (r: Result<
    Vec<AccountTokenAmount>,
    ContractError,
>)
    requires
        old(state)@.wf(),
    ensures
        match pay_taxes_spec(old(state)@, sender@, acl_allows) {
            Err(e) => r == Err::<Vec<AccountTokenAmount>, ContractError>(e) && final(state)@
                == old(state)@,
            Ok((s, paid)) => {
                &&& r is Ok
                &&& final(state)@ == s
                &&& r->Ok_0@.len() == paid.len()
                &&& forall|k: int|
                    0 <= k < paid.len() ==> (#[trigger] r->Ok_0@[k]).address@ == paid[k].0
                        && r->Ok_0@[k].amount == paid[k].1
            },
        },
        final(state)@.wf(),
{
    ensure_sender_is_allowed(state.owner(), sender, acl_allows)?;
    let ghost places = rising_from(
        addresses_of(state@.tax_recipients),
        None,
        state@.tax_recipients.len(),
    );
    let mut transfers: Vec<AccountTokenAmount> = Vec::new();
    let mut left = state.pool().taxes;
    {
        let addresses = state.tax_recipient_addresses();
        assert(views(addresses@).len() == addresses_of(state@.tax_recipients).len());
        let order = rising(&addresses, None, addresses.len());
        let mut k: usize = 0;
        while k < order.len()
            invariant
                k <= order@.len() == places.len(),
                state@.wf(),
                forall|j: int|
                    0 <= j < order@.len() ==> (#[trigger] order@[j]) < state@.tax_recipients.len()
                        && order@[j] == places[j],
                left == taxes_paid(state@.tax_recipients, places, state@.pool.taxes, k as int).1,
                transfers@.len() == k,
                forall|j: int|
                    0 <= j < k ==> (#[trigger] transfers@[j]).address@ == taxes_paid(
                        state@.tax_recipients,
                        places,
                        state@.pool.taxes,
                        k as int,
                    ).0[j].0 && transfers@[j].amount == taxes_paid(
                        state@.tax_recipients,
                        places,
                        state@.pool.taxes,
                        k as int,
                    ).0[j].1,
                taxes_paid(state@.tax_recipients, places, state@.pool.taxes, k as int).0.len()
                    == k,
            decreases order@.len() - k,
        {
            let i = order[k];
            assert(order@[k as int] == places[k as int]);
            let pct = state.tax_recipient_at(i).pct;
            proof {
                lemma_mul_pct_bound(left, pct);
            }
            let amount = match mul_pct(left, pct) {
                Ok(v) => v,
                Err(_) => 0,
            };
            transfers.push(
                AccountTokenAmount { address: state.tax_recipient_address_at(i).clone(), amount },
            );
            left -= amount;
            k += 1;
        }
    }
    // What is left over is moved into liquidity.
    let liquidity = match state.pool().liquidity.checked_add(left) {
        Some(v) => v,
        None => { return Err(ContractError::Overflow); },
    };
    let delegation = state.pool().delegation;
    let dividends = state.pool().dividends;
    state.set_pool_totals(delegation, liquidity, dividends, 0);
    Ok(transfers)
}

} // verus!
