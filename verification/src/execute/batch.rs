//! Jobs by the batch.
use vstd::prelude::*;

use crate::error::ContractError;
use crate::execute::process::amount_of;
use crate::execute::process::process;
use crate::execute::process::process_spec;
use crate::models::AccountTokenAmount;
use crate::models::BlockInfo;
use crate::models::Job;
use crate::state::State;
use crate::table::Keyed;
use crate::table::Table;
use crate::table::position;
use crate::table::value_of;
use crate::table::with_value;
use crate::validity::lemma_wf_frame;
use crate::view::StateView;

verus! {

/// What a batch of jobs comes to: what is to be refunded to the initiators
/// of the jobs that triggered the rate limiter, and what is to come in from
/// and to go out to each address for the others.
pub struct ProcessManyResponse {
    pub refunds: Vec<AccountTokenAmount>,
    pub incoming: Table<u128>,
    pub outgoing: Table<u128>,
}

/// A batch as far as it has been processed.
pub struct Batch {
    pub state: StateView,
    pub refunds: Seq<AccountTokenAmount>,
    pub incoming: Seq<Keyed<u128>>,
    pub outgoing: Seq<Keyed<u128>>,
}

/// The totals with a movement added under its address; a movement of
/// nothing is not counted.
pub open spec fn tally(totals: Seq<Keyed<u128>>, movement: Option<AccountTokenAmount>) -> Result<
    Seq<Keyed<u128>>,
    ContractError,
> {
    match movement {
        None => Ok(totals),
        Some(m) => {
            let so_far = match value_of(totals, m.address@) {
                Some(v) => v,
                None => 0,
            };
            if m.amount == 0 {
                Ok(totals)
            } else if so_far + m.amount > u128::MAX {
                Err(ContractError::Overflow)
            } else {
                Ok(with_value(totals, m.address@, (so_far + m.amount) as u128))
            }
        },
    }
}

/// A batch after one more job: a job that triggers the rate limiter moves
/// no money, and what came in with it is to be refunded to its initiator;
/// any other job is added to the totals.
#[verifier::opaque]
pub open spec fn process_job(batch: Batch, block: BlockInfo, client_address: String, job: Job) -> Result<
    Batch,
    ContractError,
> {
    match process_spec(
        batch.state,
        block,
        client_address,
        job.initiator,
        job.incoming,
        job.outgoing,
    ) {
        Err(e) => Err(e),
        Ok((s1, limited)) => if limited {
            Ok(
                Batch {
                    state: s1,
                    refunds: if amount_of(job.incoming) != 0 {
                        batch.refunds.push(
                            AccountTokenAmount {
                                address: job.initiator,
                                amount: amount_of(job.incoming),
                            },
                        )
                    } else {
                        batch.refunds
                    },
                    ..batch
                },
            )
        } else {
            match tally(batch.incoming, job.incoming) {
                Err(e) => Err(e),
                Ok(incoming) => match tally(batch.outgoing, job.outgoing) {
                    Err(e) => Err(e),
                    Ok(outgoing) => Ok(Batch { state: s1, incoming, outgoing, ..batch }),
                },
            }
        },
    }
}

/// A batch after its jobs have been processed one after the other; the
/// first job that fails fails the batch.
pub open spec fn process_jobs(s: StateView, block: BlockInfo, client_address: String, jobs: Seq<Job>) -> Result<
    Batch,
    ContractError,
>
    decreases jobs.len(),
{
    if jobs.len() == 0 {
        Ok(
            Batch {
                state: s,
                refunds: Seq::empty(),
                incoming: Seq::empty(),
                outgoing: Seq::empty(),
            },
        )
    } else {
        match process_jobs(s, block, client_address, jobs.drop_last()) {
            Err(e) => Err(e),
            Ok(batch) => process_job(batch, block, client_address, jobs.last()),
        }
    }
}

/// A batch of jobs of one client: the client must be connected; the jobs
/// are processed in their order, and the client's count of jobs grows by
/// their number.
pub open spec fn process_many_spec(
    s: StateView,
    block: BlockInfo,
    client_address: String,
    jobs: Seq<Job>,
) -> Result<Batch, ContractError> {
    if position(s.clients, client_address@) is None {
        Err(ContractError::ClientNotFound)
    } else {
        match process_jobs(s, block, client_address, jobs) {
            Err(e) => Err(e),
            Ok(batch) => {
                let so_far = match value_of(batch.state.client_execution_counts, client_address@) {
                    Some(n) => n,
                    None => 0,
                };
                if so_far + jobs.len() > u64::MAX {
                    Err(ContractError::Overflow)
                } else {
                    Ok(
                        Batch {
                            state: StateView {
                                client_execution_counts: with_value(
                                    batch.state.client_execution_counts,
                                    client_address@,
                                    (so_far + jobs.len()) as u64,
                                ),
                                ..batch.state
                            },
                            ..batch
                        },
                    )
                }
            },
        }
    }
}

/// A batch that fails after some of its jobs fails as a whole.
pub proof fn lemma_failure_lasts(
    s: StateView,
    block: BlockInfo,
    client_address: String,
    jobs: Seq<Job>,
    k: int,
)
    requires
        0 <= k <= jobs.len(),
        process_jobs(s, block, client_address, jobs.take(k)) is Err,
    ensures
        process_jobs(s, block, client_address, jobs) == process_jobs(
            s,
            block,
            client_address,
            jobs.take(k),
        ),
    decreases jobs.len() - k,
{
    if k < jobs.len() {
        assert(jobs.take(k + 1).drop_last() =~= jobs.take(k));
        lemma_failure_lasts(s, block, client_address, jobs, k + 1);
    } else {
        assert(jobs.take(k) =~= jobs);
    }
}

/// Adds a movement to the totals under its address.
fn add_to_totals(totals: &mut Table<u128>, movement: &Option<AccountTokenAmount>) -> (r: Result<
    (),
    ContractError,
>)
    ensures
        match tally(old(totals)@, *movement) {
            Err(e) => r == Err::<(), ContractError>(e) && final(totals)@ == old(totals)@,
            Ok(t) => r is Ok && final(totals)@ == t,
        },
{
    match movement {
        Some(m) => {
            if m.amount != 0 {
                let so_far = match totals.find(&m.address) {
                    Some(i) => *totals.get(i),
                    None => 0,
                };
                let sum = match so_far.checked_add(m.amount) {
                    Some(v) => v,
                    None => { return Err(ContractError::Overflow); },
                };
                totals.put(&m.address, sum);
            }
        },
        None => {},
    }
    Ok(())
}

/// Processes one job of a batch.
fn run_job(
    state: &mut State,
    block: &BlockInfo,
    client_address: &String,
    job: &Job,
    refunds: &mut Vec<AccountTokenAmount>,
    incoming: &mut Table<u128>,
    outgoing: &mut Table<u128>,
) -> (r: Result<(), ContractError>)
    requires
        old(state)@.wf(),
    ensures
        match process_job(
            Batch {
                state: old(state)@,
                refunds: old(refunds)@,
                incoming: old(incoming)@,
                outgoing: old(outgoing)@,
            },
            *block,
            *client_address,
            *job,
        ) {
            Err(e) => r == Err::<(), ContractError>(e),
            Ok(batch) => {
                &&& r is Ok
                &&& final(state)@ == batch.state
                &&& final(refunds)@ == batch.refunds
                &&& final(incoming)@ == batch.incoming
                &&& final(outgoing)@ == batch.outgoing
            },
        },
        final(state)@.wf(),
{
    reveal(process_job);
    let is_rate_limited = process(
        state,
        block,
        client_address,
        &job.initiator,
        &job.incoming,
        &job.outgoing,
    )?;
    if is_rate_limited {
        // What came in with a job that was rate limited goes back.
        match &job.incoming {
            Some(m) => {
                if m.amount != 0 {
                    refunds.push(
                        AccountTokenAmount { address: job.initiator.clone(), amount: m.amount },
                    );
                }
            },
            None => {},
        }
    } else {
        add_to_totals(incoming, &job.incoming)?;
        add_to_totals(outgoing, &job.outgoing)?;
    }
    Ok(())
}

/// Processes the jobs of a client in their order and tells what is to be
/// transferred for them.
///
/// The state is taken over and handed back after the last job: a batch that
/// fails hands nothing back, so that no state exists in which a part of a
/// failed batch is done.
pub fn process_many(
    state: State,
    block: &BlockInfo,
    client_address: &String,
    jobs: &Vec<Job>,
) -> (r: Result<(State, ProcessManyResponse), ContractError>)
    requires
        state@.wf(),
    ensures
        match process_many_spec(state@, *block, *client_address, jobs@) {
            Err(e) => r == Err::<(State, ProcessManyResponse), ContractError>(e),
            Ok(batch) => {
                &&& r is Ok
                &&& r->Ok_0.0@ == batch.state
                &&& r->Ok_0.0@.wf()
                &&& r->Ok_0.1.refunds@ == batch.refunds
                &&& r->Ok_0.1.incoming@ == batch.incoming
                &&& r->Ok_0.1.outgoing@ == batch.outgoing
            },
        },
{
    let ghost start = state@;
    let mut current = state;
    if current.find_client(client_address).is_none() {
        return Err(ContractError::ClientNotFound);
    }
    let mut refunds: Vec<AccountTokenAmount> = Vec::new();
    let mut incoming: Table<u128> = Table::new();
    let mut outgoing: Table<u128> = Table::new();
    let mut k: usize = 0;
    while k < jobs.len()
        invariant
            k <= jobs@.len(),
            current@.wf(),
            start == state@,
            position(start.clients, client_address@) is Some,
            process_jobs(start, *block, *client_address, jobs@.take(k as int)) == Ok::<
                Batch,
                ContractError,
            >(
                Batch {
                    state: current@,
                    refunds: refunds@,
                    incoming: incoming@,
                    outgoing: outgoing@,
                },
            ),
        decreases jobs@.len() - k,
    {
        proof {
            assert(jobs@.take(k + 1).drop_last() =~= jobs@.take(k as int));
            assert(jobs@.take(k + 1).last() == jobs@[k as int]);
            if process_jobs(start, *block, *client_address, jobs@.take(k + 1)) is Err {
                lemma_failure_lasts(start, *block, *client_address, jobs@, k + 1);
            }
        }
        run_job(
            &mut current,
            block,
            client_address,
            &jobs[k],
            &mut refunds,
            &mut incoming,
            &mut outgoing,
        )?;
        k += 1;
    }
    assert(jobs@.take(k as int) =~= jobs@);
    // Count the jobs of the client.
    let count = current.client_execution_count(client_address) as u128 + jobs.len() as u128;
    if count > u64::MAX as u128 {
        return Err(ContractError::Overflow);
    }
    let ghost before = current@;
    current.put_client_execution_count(client_address, count as u64);
    proof {
        lemma_wf_frame(before, current@);
    }
    Ok((current, ProcessManyResponse { refunds, incoming, outgoing }))
}

/// Processes one job of a client as a batch of its own.
pub fn process_one(
    state: State,
    block: &BlockInfo,
    client_address: &String,
    initiator: String,
    maybe_incoming: Option<AccountTokenAmount>,
    maybe_outgoing: Option<AccountTokenAmount>,
) -> (r: Result<(State, ProcessManyResponse), ContractError>)
    requires
        state@.wf(),
    ensures
        match process_many_spec(
            state@,
            *block,
            *client_address,
            seq![Job { initiator, incoming: maybe_incoming, outgoing: maybe_outgoing }],
        ) {
            Err(e) => r == Err::<(State, ProcessManyResponse), ContractError>(e),
            Ok(batch) => {
                &&& r is Ok
                &&& r->Ok_0.0@ == batch.state
                &&& r->Ok_0.0@.wf()
                &&& r->Ok_0.1.refunds@ == batch.refunds
                &&& r->Ok_0.1.incoming@ == batch.incoming
                &&& r->Ok_0.1.outgoing@ == batch.outgoing
            },
        },
{
    let mut jobs: Vec<Job> = Vec::new();
    jobs.push(Job { initiator, incoming: maybe_incoming, outgoing: maybe_outgoing });
    assert(jobs@ =~= seq![Job { initiator, incoming: maybe_incoming, outgoing: maybe_outgoing }]);
    process_many(state, block, client_address, &jobs)
}

} // verus!
