//! Processing a job keeps what the other operations keep.
use vstd::prelude::*;

use crate::coalescing::lemma_amortize_keeps_latest;
use crate::conservation::conserved;
use crate::conservation::lemma_amortize_conserved;
use crate::conservation::lemma_conserved_frame;
use crate::conservation::lemma_receive_conserved;
use crate::conservation::loss_free;
use crate::execute::process::Flow;
use crate::execute::process::amount_of;
use crate::execute::process::flow_of;
use crate::execute::process::limits_spec;
use crate::execute::process::noted_usage;
use crate::execute::process::process_spec;
use crate::execute::process::settle_spec;
use crate::execute::process::spend_budget;
use crate::execute::process::uses_up;
use crate::models::AccountTokenAmount;
use crate::models::BlockInfo;
use crate::solvency::hale;
use crate::solvency::lemma_amortize_hale;
use crate::solvency::lemma_receive_hale;
use crate::solvency::solvent;
use crate::table::lemma_position;
use crate::table::position;
use crate::transition::amortize_spec;
use crate::transition::receive_core;
use crate::transition::send_core;
use crate::transition::upsert_spec;
use crate::validity::lemma_amortize_wf;
use crate::validity::lemma_receive_core_wf;
use crate::validity::lemma_send_core_wf;
use crate::validity::lemma_wf_frame;
use crate::view::StateView;

verus! {

/// Settling a job keeps a valid state valid.
pub proof fn lemma_settle_wf(s: StateView, i: int, budget: Option<u128>, used_up: bool, flow: Flow)
    requires
        s.wf(),
        0 <= i < s.clients.len(),
        settle_spec(s, i, budget, used_up, flow) is Ok,
    ensures
        settle_spec(s, i, budget, used_up, flow)->Ok_0.wf(),
{
    let after = settle_spec(s, i, budget, used_up, flow)->Ok_0;
    match flow {
        Flow::Nothing => {
            lemma_wf_frame(s, after);
        },
        Flow::Send(payment) => {
            lemma_send_core_wf(s, payment);
            let core = send_core(s, payment)->Ok_0;
            lemma_amortize_wf(core);
            lemma_amortize_keeps_clients(core);
            lemma_wf_frame(amortize_spec(core)->Ok_0, after);
        },
        Flow::Receive(revenue) => {
            lemma_receive_core_wf(s, revenue);
            let core = receive_core(s, revenue)->Ok_0;
            lemma_amortize_wf(core);
            lemma_amortize_keeps_clients(core);
            lemma_wf_frame(amortize_spec(core)->Ok_0, after);
        },
    }
}

/// The replay in passing leaves the clients alone.
pub proof fn lemma_amortize_keeps_clients(s: StateView)
    requires
        amortize_spec(s) is Ok,
    ensures
        amortize_spec(s)->Ok_0.clients == s.clients,
        amortize_spec(s)->Ok_0.n_clients == s.n_clients,
{
}

/// Processing a job keeps a valid state valid.
pub proof fn lemma_process_wf(
    s: StateView,
    block: BlockInfo,
    client_address: String,
    initiator: String,
    incoming: Option<AccountTokenAmount>,
    outgoing: Option<AccountTokenAmount>,
)
    requires
        s.wf(),
        process_spec(s, block, client_address, initiator, incoming, outgoing) is Ok,
    ensures
        process_spec(s, block, client_address, initiator, incoming, outgoing)->Ok_0.0.wf(),
{
    lemma_position(s.clients, client_address@);
    let i = position(s.clients, client_address@)->Some_0;
    if incoming is None && outgoing is None {
        lemma_amortize_wf(s);
    } else {
        let client = s.clients[i].value;
        let budget = spend_budget(client.config.budget, outgoing)->Ok_0;
        let held = limits_spec(
            s,
            block,
            client_address@,
            initiator@,
            amount_of(incoming),
            if budget is None && outgoing is Some {
                Some(amount_of(outgoing))
            } else {
                None
            },
            client.config.rate_limit,
        )->Ok_0;
        if !(held.client_triggered || held.initiator_triggered) {
            let noted = StateView {
                usage: noted_usage(
                    s.usage,
                    client_address@,
                    initiator@,
                    held.of_client,
                    held.of_initiator,
                ),
                ..s
            };
            lemma_settle_wf(
                noted,
                i,
                budget,
                uses_up(client.config.budget, outgoing),
                flow_of(
                    amount_of(incoming),
                    outgoing,
                ),
            );
        }
    }
}

/// Settling a job that pays nothing out keeps conservation.
pub proof fn lemma_settle_conserved(s: StateView, i: int, budget: Option<u128>, used_up: bool, flow: Flow)
    requires
        s.wf(),
        conserved(s),
        0 <= i < s.clients.len(),
        settle_spec(s, i, budget, used_up, flow) is Ok,
        loss_free(settle_spec(s, i, budget, used_up, flow)->Ok_0.ledger),
    ensures
        conserved(settle_spec(s, i, budget, used_up, flow)->Ok_0),
{
    let after = settle_spec(s, i, budget, used_up, flow)->Ok_0;
    match flow {
        Flow::Nothing => {
            lemma_conserved_frame(s, after);
        },
        Flow::Send(payment) => {
            lemma_send_leaves_a_loss(s, i, budget, used_up, payment);
        },
        Flow::Receive(revenue) => {
            lemma_receive_core_wf(s, revenue);
            lemma_receive_conserved(s, revenue);
            let core = receive_core(s, revenue)->Ok_0;
            lemma_amortize_conserved(core);
            lemma_conserved_frame(amortize_spec(core)->Ok_0, after);
        },
    }
}

/// A payment leaves a loss in the ledger.
pub proof fn lemma_send_leaves_a_loss(s: StateView, i: int, budget: Option<u128>, used_up: bool, payment: u128)
    requires
        s.wf(),
        0 <= i < s.clients.len(),
        settle_spec(s, i, budget, used_up, Flow::Send(payment)) is Ok,
    ensures
        !loss_free(settle_spec(s, i, budget, used_up, Flow::Send(payment))->Ok_0.ledger),
{
    let after = settle_spec(s, i, budget, used_up, Flow::Send(payment))->Ok_0;
    lemma_send_core_wf(s, payment);
    let core = send_core(s, payment)->Ok_0;
    let written = upsert_spec(s, 0, 0, payment)->Ok_0.0;
    let latest = (written.ledger_entry_seq_no - 1) as u128;
    assert(core.ledger.dom().contains(latest));
    assert(core.ledger[latest].delta_loss >= payment);
    lemma_amortize_keeps_latest(core);
    assert(after.ledger.dom().contains(latest));
    assert(after.ledger[latest].delta_loss >= 1);
}

/// Settling a job that pays nothing out keeps the pool hale.
pub proof fn lemma_settle_hale(s: StateView, i: int, budget: Option<u128>, used_up: bool, flow: Flow)
    requires
        s.wf(),
        solvent(s),
        0 <= i < s.clients.len(),
        settle_spec(s, i, budget, used_up, flow) is Ok,
        loss_free(settle_spec(s, i, budget, used_up, flow)->Ok_0.ledger),
    ensures
        hale(settle_spec(s, i, budget, used_up, flow)->Ok_0),
{
    let after = settle_spec(s, i, budget, used_up, flow)->Ok_0;
    match flow {
        Flow::Nothing => {
            assert(after.accounts == s.accounts);
            assert(after.ledger == s.ledger);
        },
        Flow::Send(payment) => {
            lemma_send_leaves_a_loss(s, i, budget, used_up, payment);
        },
        Flow::Receive(revenue) => {
            lemma_receive_hale(s, revenue);
            let core = receive_core(s, revenue)->Ok_0;
            lemma_receive_core_wf(s, revenue);
            lemma_receive_conserved(s, revenue);
            lemma_amortize_hale(core);
            assert(after.accounts == amortize_spec(core)->Ok_0.accounts);
            assert(after.ledger == amortize_spec(core)->Ok_0.ledger);
        },
    }
}

/// Processing a job that pays nothing out keeps the pool hale.
pub proof fn lemma_process_hale(
    s: StateView,
    block: BlockInfo,
    client_address: String,
    initiator: String,
    incoming: Option<AccountTokenAmount>,
    outgoing: Option<AccountTokenAmount>,
)
    requires
        s.wf(),
        solvent(s),
        process_spec(s, block, client_address, initiator, incoming, outgoing) is Ok,
        loss_free(
            process_spec(s, block, client_address, initiator, incoming, outgoing)->Ok_0.0.ledger,
        ),
    ensures
        hale(process_spec(s, block, client_address, initiator, incoming, outgoing)->Ok_0.0),
{
    lemma_position(s.clients, client_address@);
    let i = position(s.clients, client_address@)->Some_0;
    let after = process_spec(s, block, client_address, initiator, incoming, outgoing)->Ok_0.0;
    if incoming is None && outgoing is None {
        lemma_amortize_hale(s);
    } else {
        let client = s.clients[i].value;
        let budget = spend_budget(client.config.budget, outgoing)->Ok_0;
        let held = limits_spec(
            s,
            block,
            client_address@,
            initiator@,
            amount_of(incoming),
            if budget is None && outgoing is Some {
                Some(amount_of(outgoing))
            } else {
                None
            },
            client.config.rate_limit,
        )->Ok_0;
        if held.client_triggered || held.initiator_triggered {
            assert(after.accounts == s.accounts);
            assert(after.ledger == s.ledger);
        } else {
            let noted = StateView {
                usage: noted_usage(
                    s.usage,
                    client_address@,
                    initiator@,
                    held.of_client,
                    held.of_initiator,
                ),
                ..s
            };
            lemma_conserved_frame(s, noted);
            lemma_settle_hale(
                noted,
                i,
                budget,
                uses_up(client.config.budget, outgoing),
                flow_of(amount_of(incoming), outgoing),
            );
        }
    }
}

/// Processing a job that pays nothing out keeps conservation.
pub proof fn lemma_process_conserved(
    s: StateView,
    block: BlockInfo,
    client_address: String,
    initiator: String,
    incoming: Option<AccountTokenAmount>,
    outgoing: Option<AccountTokenAmount>,
)
    requires
        s.wf(),
        conserved(s),
        process_spec(s, block, client_address, initiator, incoming, outgoing) is Ok,
        loss_free(
            process_spec(s, block, client_address, initiator, incoming, outgoing)->Ok_0.0.ledger,
        ),
    ensures
        conserved(process_spec(s, block, client_address, initiator, incoming, outgoing)->Ok_0.0),
{
            lemma_position(s.clients, client_address@);
            let i = position(s.clients, client_address@)->Some_0;
            let after = process_spec(s, block, client_address, initiator, incoming, outgoing)->Ok_0.0;
            if incoming is None && outgoing is None {
                lemma_amortize_conserved(s);
            } else {
                let client = s.clients[i].value;
                let budget = spend_budget(client.config.budget, outgoing)->Ok_0;
                let held = limits_spec(
                    s,
                    block,
                    client_address@,
                    initiator@,
                    amount_of(incoming),
                    if budget is None && outgoing is Some {
                        Some(amount_of(outgoing))
                    } else {
                        None
                    },
                    client.config.rate_limit,
                )->Ok_0;
                if held.client_triggered || held.initiator_triggered {
                    lemma_conserved_frame(s, after);
                } else {
                    let noted = StateView {
                        usage: noted_usage(
                            s.usage,
                            client_address@,
                            initiator@,
                            held.of_client,
                            held.of_initiator,
                        ),
                        ..s
                    };
                    lemma_conserved_frame(s, noted);
                    lemma_settle_conserved(
                        noted,
                        i,
                        budget,
                        uses_up(client.config.budget, outgoing),
                        flow_of(amount_of(incoming), outgoing),
                    );
                }
            }
}

} // verus!
