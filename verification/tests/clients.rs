use house::error::ContractError;
use house::execute::batch::{process_many, process_one};
use house::execute::client::{connect, disconnect, resume, set_client_config, suspend};
use house::execute::earn::earn;
use house::execute::pay::pay;
use house::execute::pool::stake;
use house::execute::process::{ensure_client_not_rate_limited, process};
use house::execute::{ensure_sender_is_allowed, set_config, set_owner};
use house::limiter::throttle;
use house::models::{
    AccountTokenAmount, BlockInfo, Client, ClientConfig, ClientInitArgs, Config, HouseEvent, Job,
    Owner, RateLimitConfig, RateLimitEvent, StakeAccount, Timestamp, Token, Usage,
};
use house::query::{can_spend, is_rate_limited, query_client};
use house::state::{load_client, suspend_client, sync_account_readonly, State};

const SECOND: u64 = 1_000_000_000;

fn limit(interval_seconds: u64, max_pct_change: u128) -> RateLimitConfig {
    RateLimitConfig { interval_seconds, max_pct_change }
}

fn config() -> Config {
    Config {
        restake_rate: 1_000_000,
        tax_rate: 0,
        unbonding_seconds: 60,
        account_rate_limit: limit(3600, 500_000),
        default_client_rate_limit: limit(3600, 250_000),
    }
}

fn addr(name: &str) -> String {
    name.to_string()
}

fn at(seconds: u64) -> Timestamp {
    Timestamp { nanos: seconds * SECOND }
}

fn block(height: u64, seconds: u64) -> BlockInfo {
    BlockInfo { height, time: at(seconds) }
}

fn amount(address: &str, amount: u128) -> Option<AccountTokenAmount> {
    Some(AccountTokenAmount { address: addr(address), amount })
}

fn init_args(address: &str, budget: Option<u128>, rate_limit: Option<RateLimitConfig>) -> ClientInitArgs {
    ClientInitArgs {
        address: Some(addr(address)),
        name: Some(addr("a game")),
        description: None,
        url: None,
        budget,
        rate_limit,
    }
}

/// A pool of 1000 staked by "a", with the client "game" connected.
fn pool_with_client(budget: Option<u128>, rate_limit: Option<RateLimitConfig>) -> State {
    let mut state = State::new(
        Owner::Address(addr("owner")),
        Token::Cw20 { address: addr("token") },
        config(),
    )
    .unwrap();
    stake(&mut state, &addr("a"), 1_000).unwrap();
    connect(&mut state, at(3), &addr("owner"), false, init_args("game", budget, rate_limit)).unwrap();
    state
}

fn client(state: &State, address: &str) -> Client {
    load_client(state, &addr(address)).unwrap()
}

fn current(state: &State, address: &str) -> StakeAccount {
    let mut account = state.stake_account(&addr(address)).unwrap();
    sync_account_readonly(state, &mut account, true).unwrap();
    account
}

#[test]
fn owner_is_allowed_and_nobody_else() {
    let owner = Owner::Address(addr("owner"));
    assert_eq!(ensure_sender_is_allowed(&owner, &addr("owner"), false), Ok(()));
    assert_eq!(
        ensure_sender_is_allowed(&owner, &addr("other"), true),
        Err(ContractError::NotAuthorized)
    );
    let acl = Owner::Acl(addr("acl"));
    assert_eq!(ensure_sender_is_allowed(&acl, &addr("anyone"), true), Ok(()));
    assert_eq!(
        ensure_sender_is_allowed(&acl, &addr("acl"), false),
        Err(ContractError::NotAuthorized)
    );
}

#[test]
fn connect_sets_a_client_up_with_the_default_limit() {
    let state = pool_with_client(None, None);
    let connected = client(&state, "game");
    assert_eq!(
        connected,
        Client {
            address: None,
            config: ClientConfig {
                name: Some(addr("a game")),
                description: None,
                url: None,
                budget: None,
                rate_limit: limit(3600, 250_000),
            },
            connected_at: at(3),
            is_suspended: false,
            revenue: 0,
            expense: 0,
        }
    );
    assert_eq!(state.n_clients(), 1);
    assert_eq!(load_client(&state, &addr("nobody")), Err(ContractError::ClientNotFound));
}

#[test]
fn connect_is_for_the_owner_and_for_new_addresses() {
    let mut state = pool_with_client(None, Some(limit(10, 1)));
    assert_eq!(client(&state, "game").config.rate_limit, limit(10, 1));
    assert_eq!(
        connect(&mut state, at(4), &addr("mallory"), false, init_args("other", None, None)),
        Err(ContractError::NotAuthorized)
    );
    assert_eq!(
        connect(&mut state, at(4), &addr("owner"), false, init_args("game", None, None)),
        Err(ContractError::NotAuthorized)
    );
    let nameless = ClientInitArgs { address: None, ..init_args("x", None, None) };
    assert_eq!(
        connect(&mut state, at(4), &addr("owner"), false, nameless),
        Err(ContractError::NotAuthorized)
    );
    assert_eq!(state.n_clients(), 1);
}

#[test]
fn disconnect_removes_the_client() {
    let mut state = pool_with_client(None, None);
    assert_eq!(
        disconnect(&mut state, &addr("mallory"), false, &addr("game")),
        Err(ContractError::NotAuthorized)
    );
    disconnect(&mut state, &addr("owner"), false, &addr("nobody")).unwrap();
    assert_eq!(state.n_clients(), 1);
    disconnect(&mut state, &addr("owner"), false, &addr("game")).unwrap();
    assert_eq!(state.n_clients(), 0);
    assert_eq!(load_client(&state, &addr("game")), Err(ContractError::ClientNotFound));
}

#[test]
fn suspended_client_is_refused_until_it_is_resumed() {
    let mut state = pool_with_client(None, None);
    suspend(&mut state, &addr("owner"), false, &addr("game")).unwrap();
    assert!(client(&state, "game").is_suspended);
    assert_eq!(
        ensure_client_not_rate_limited(&client(&state, "game")),
        Err(ContractError::ClientSuspended)
    );
    assert_eq!(
        process(&mut state, &block(5, 50), &addr("game"), &addr("u"), &amount("u", 5), &None),
        Err(ContractError::ClientSuspended)
    );
    assert_eq!(
        suspend(&mut state, &addr("owner"), false, &addr("nobody")),
        Err(ContractError::NotAuthorized)
    );
    assert_eq!(
        resume(&mut state, &block(6, 60), &addr("mallory"), false, &addr("game")),
        Err(ContractError::NotAuthorized)
    );

    resume(&mut state, &block(6, 60), &addr("owner"), false, &addr("game")).unwrap();
    assert!(!client(&state, "game").is_suspended);
    assert_eq!(ensure_client_not_rate_limited(&client(&state, "game")), Ok(()));
    assert_eq!(
        state.usage(&addr("game")),
        Some(Usage {
            start_liquidity: 1_000,
            start_time: at(60),
            prev_height: 6,
            spent: 0,
            added: 0,
        })
    );
    assert_eq!(suspend_client(&mut state, &addr("game")), Ok(()));
    assert!(client(&state, "game").is_suspended);
    assert_eq!(suspend_client(&mut state, &addr("nobody")), Err(ContractError::NotAuthorized));
}

#[test]
fn client_config_can_be_set() {
    let mut state = pool_with_client(None, None);
    let new_config = ClientConfig {
        name: None,
        description: Some(addr("d")),
        url: Some(addr("u")),
        budget: Some(7),
        rate_limit: limit(1, 2),
    };
    assert_eq!(
        set_client_config(&mut state, &addr("owner"), false, &addr("nobody"), new_config.clone()),
        Err(ContractError::ClientNotFound)
    );
    assert_eq!(
        set_client_config(&mut state, &addr("x"), false, &addr("game"), new_config.clone()),
        Err(ContractError::NotAuthorized)
    );
    set_client_config(&mut state, &addr("owner"), false, &addr("game"), new_config.clone()).unwrap();
    assert_eq!(client(&state, "game").config, new_config);
    assert_eq!(client(&state, "game").connected_at, at(3));
}

#[test]
fn pool_config_and_owner_can_be_set_by_the_owner() {
    let mut state = pool_with_client(None, None);
    let mut changed = config();
    changed.unbonding_seconds = 5;
    assert_eq!(
        set_config(&mut state, &addr("x"), false, changed),
        Err(ContractError::NotAuthorized)
    );
    set_config(&mut state, &addr("owner"), false, changed).unwrap();
    assert_eq!(state.config(), changed);
    changed.tax_rate = 2_000_000;
    assert_eq!(
        set_config(&mut state, &addr("owner"), false, changed),
        Err(ContractError::ValidationError)
    );
    assert_eq!(state.config().tax_rate, 0);

    assert_eq!(
        set_owner(&mut state, &addr("x"), false, Owner::Address(addr("x"))),
        Err(ContractError::NotAuthorized)
    );
    set_owner(&mut state, &addr("owner"), false, Owner::Acl(addr("acl"))).unwrap();
    assert_eq!(state.owner(), &Owner::Acl(addr("acl")));
    assert_eq!(
        set_config(&mut state, &addr("owner"), false, config()),
        Err(ContractError::NotAuthorized)
    );
    set_config(&mut state, &addr("someone"), true, config()).unwrap();
}

#[test]
fn job_of_an_unknown_client_is_refused() {
    let mut state = pool_with_client(None, None);
    assert_eq!(
        process(&mut state, &block(5, 50), &addr("nobody"), &addr("u"), &amount("u", 5), &None),
        Err(ContractError::ClientNotFound)
    );
}

#[test]
fn job_with_more_coming_in_is_revenue() {
    let mut state = pool_with_client(None, None);
    let triggered = process(
        &mut state,
        &block(5, 50),
        &addr("game"),
        &addr("player"),
        &amount("player", 30),
        &amount("player", 10),
    )
    .unwrap();
    assert!(!triggered);
    assert_eq!(state.pool().liquidity, 1_020);
    assert_eq!(client(&state, "game").revenue, 20);
    assert_eq!(client(&state, "game").expense, 0);
    assert_eq!(state.ledger_entry(0).unwrap().delta_revenue, 20);
    assert_eq!(current(&state, "a").liquidity, 1_020);
    assert_eq!(state.total_stream_revenue(), 0);
    assert_eq!(
        state.usage(&addr("game")),
        Some(Usage {
            start_liquidity: 1_000,
            start_time: at(50),
            prev_height: 5,
            spent: 10,
            added: 30,
        })
    );
    assert_eq!(state.usage(&addr("player")).unwrap().spent, 10);
}

#[test]
fn job_with_more_going_out_is_a_payment() {
    let mut state = pool_with_client(None, None);
    let triggered = process(
        &mut state,
        &block(5, 50),
        &addr("game"),
        &addr("player"),
        &amount("player", 10),
        &amount("player", 110),
    )
    .unwrap();
    assert!(!triggered);
    assert_eq!(state.pool().liquidity, 900);
    assert_eq!(client(&state, "game").expense, 100);
    assert_eq!(state.ledger_entry(0).unwrap().delta_loss, 100);
    assert_eq!(current(&state, "a").liquidity, 900);
}

#[test]
fn job_that_evens_out_moves_nothing() {
    let mut state = pool_with_client(None, None);
    let triggered = process(
        &mut state,
        &block(5, 50),
        &addr("game"),
        &addr("player"),
        &amount("player", 10),
        &amount("player", 10),
    )
    .unwrap();
    assert!(!triggered);
    assert_eq!(state.pool().liquidity, 1_000);
    assert_eq!(state.ledger_entry_seq_no(), 0);
    assert_eq!(state.usage(&addr("game")).unwrap().spent, 10);

    let mut state = pool_with_client(None, None);
    assert_eq!(
        process(&mut state, &block(5, 50), &addr("game"), &addr("player"), &None, &None),
        Ok(false)
    );
    assert_eq!(state.usage(&addr("game")), None);
}

#[test]
fn payment_beyond_the_pool_is_an_invariant_violation() {
    let mut state = pool_with_client(Some(5_000), None);
    assert_eq!(
        process(&mut state, &block(5, 50), &addr("game"), &addr("p"), &None, &amount("p", 1_001)),
        Err(ContractError::InvariantViolation)
    );
    assert_eq!(state.pool().liquidity, 1_000);
    assert_eq!(state.ledger_entry_seq_no(), 0);
    assert_eq!(client(&state, "game").config.budget, Some(5_000));
}

#[test]
fn budget_is_spent_and_the_client_suspended_when_it_is_used_up() {
    let mut state = pool_with_client(Some(100), None);
    assert_eq!(
        process(&mut state, &block(5, 50), &addr("game"), &addr("p"), &None, &amount("p", 101)),
        Err(ContractError::BudgetExceeded)
    );
    assert_eq!(
        process(&mut state, &block(5, 50), &addr("game"), &addr("p"), &None, &amount("p", 60)),
        Ok(false)
    );
    assert_eq!(client(&state, "game").config.budget, Some(40));
    assert!(!client(&state, "game").is_suspended);
    // a client with a budget is not rate limited: twice in one block
    assert_eq!(state.usage(&addr("game")), None);
    assert_eq!(
        process(&mut state, &block(5, 50), &addr("game"), &addr("p"), &None, &amount("p", 40)),
        Ok(false)
    );
    assert_eq!(client(&state, "game").config.budget, Some(0));
    assert!(client(&state, "game").is_suspended);
    assert_eq!(client(&state, "game").expense, 100);
    assert_eq!(state.pool().liquidity, 900);
}

#[test]
fn limiter_starts_a_fresh_window() {
    let (event, record) = throttle(None, &block(9, 100), 1_000, 5, 20, &limit(60, 100_000)).unwrap();
    assert_eq!(event, None);
    assert_eq!(
        record,
        Usage { start_liquidity: 1_000, start_time: at(100), prev_height: 9, spent: 20, added: 5 }
    );
}

#[test]
fn limiter_triggers_when_the_threshold_is_reached() {
    // the threshold is 10 % of 1000
    let (event, record) = throttle(None, &block(9, 100), 1_000, 0, 99, &limit(60, 100_000)).unwrap();
    assert_eq!(event, None);
    let (event, record) = throttle(Some(record), &block(10, 101), 5_000, 0, 1, &limit(60, 100_000)).unwrap();
    assert_eq!(event, Some(RateLimitEvent::Triggered));
    assert_eq!(record.spent, 100);
    assert_eq!(record.start_liquidity, 1_000);
    let (event, record) = throttle(Some(record), &block(11, 102), 5_000, 500, 1, &limit(60, 100_000)).unwrap();
    assert_eq!(event, Some(RateLimitEvent::Throttled));
    assert_eq!((record.spent, record.added), (101, 500));
    // what was added has brought the address below the threshold again
    let (event, _) = throttle(Some(record), &block(12, 103), 5_000, 0, 1, &limit(60, 100_000)).unwrap();
    assert_eq!(event, None);
}

#[test]
fn limiter_throttles_a_second_movement_in_one_block() {
    let (_, record) = throttle(None, &block(9, 100), 1_000, 0, 1, &limit(60, 100_000)).unwrap();
    let (event, _) = throttle(Some(record), &block(9, 100), 1_000, 0, 1, &limit(60, 100_000)).unwrap();
    assert_eq!(event, Some(RateLimitEvent::Throttled));
}

#[test]
fn limiter_resets_the_window_once_the_interval_has_passed() {
    let old = Usage { start_liquidity: 1_000, start_time: at(100), prev_height: 9, spent: 500, added: 0 };
    let (event, record) = throttle(Some(old), &block(10, 159), 2_000, 0, 1, &limit(60, 100_000)).unwrap();
    assert_eq!(event, Some(RateLimitEvent::Throttled));
    assert_eq!(record.start_time, at(100));
    let (event, record) = throttle(Some(old), &block(10, 160), 2_000, 0, 1, &limit(60, 100_000)).unwrap();
    assert_eq!(event, None);
    assert_eq!(
        record,
        Usage { start_liquidity: 2_000, start_time: at(160), prev_height: 10, spent: 1, added: 0 }
    );
}

#[test]
fn limiter_overflows_beyond_128_bits() {
    let full = Usage { start_liquidity: 10, start_time: at(1), prev_height: 1, spent: u128::MAX, added: 0 };
    assert_eq!(
        throttle(Some(full), &block(2, 2), 10, 0, 1, &limit(60, 1)),
        Err(ContractError::Overflow)
    );
    assert_eq!(
        throttle(None, &block(2, 2), u128::MAX, 0, 1, &limit(60, 2_000_000)),
        Err(ContractError::Overflow)
    );
}

#[test]
fn job_that_triggers_the_client_limit_moves_nothing_and_suspends() {
    // the client may move a quarter of 1000 within the window
    let mut state = pool_with_client(None, None);
    let triggered = process(
        &mut state,
        &block(5, 50),
        &addr("game"),
        &addr("game"),
        &None,
        &amount("winner", 250),
    )
    .unwrap();
    assert!(triggered);
    assert_eq!(state.pool().liquidity, 1_000);
    assert_eq!(state.ledger_entry_seq_no(), 0);
    assert!(client(&state, "game").is_suspended);
    assert_eq!(client(&state, "game").expense, 0);
    assert_eq!(state.usage(&addr("game")).unwrap().spent, 250);
    assert_eq!(state.events_len(), 1);
    assert_eq!(
        state.event_at(0),
        &HouseEvent::ClientRateLimitTriggered {
            block: block(5, 50),
            initiator: addr("game"),
            client: addr("game"),
        }
    );
}

#[test]
fn job_that_triggers_the_account_limit_is_noted_without_suspending_the_client() {
    // the client may move all of the pool, an account half of it
    let mut state = pool_with_client(None, Some(limit(3600, 1_000_000)));
    let triggered = process(
        &mut state,
        &block(5, 50),
        &addr("game"),
        &addr("player"),
        &None,
        &amount("player", 500),
    )
    .unwrap();
    assert!(triggered);
    assert!(!client(&state, "game").is_suspended);
    assert_eq!(state.pool().liquidity, 1_000);
    assert_eq!(state.events_len(), 1);
    assert_eq!(
        state.event_at(0),
        &HouseEvent::AccountRateLimitTriggered {
            block: block(5, 50),
            client: addr("game"),
            initiator: addr("player"),
        }
    );
    // the account is over its limit now: the next job is refused outright
    assert_eq!(
        process(&mut state, &block(6, 51), &addr("game"), &addr("player"), &None, &amount("player", 1)),
        Err(ContractError::RateLimited)
    );
    assert_eq!(state.usage(&addr("player")).unwrap().spent, 500);
    assert_eq!(state.usage(&addr("game")).unwrap().prev_height, 5);
}

#[test]
fn second_payment_in_one_block_is_refused() {
    let mut state = pool_with_client(None, None);
    process(&mut state, &block(5, 50), &addr("game"), &addr("p"), &None, &amount("p", 1)).unwrap();
    assert_eq!(
        process(&mut state, &block(5, 50), &addr("game"), &addr("q"), &None, &amount("q", 1)),
        Err(ContractError::RateLimited)
    );
    assert_eq!(state.pool().liquidity, 999);
    assert_eq!(state.usage(&addr("q")), None);
    assert_eq!(
        process(&mut state, &block(6, 50), &addr("game"), &addr("q"), &None, &amount("q", 1)),
        Ok(false)
    );
}

#[test]
fn events_are_kept_up_to_a_hundred() {
    // the client may move a thousand times the pool, an account half of it
    let mut state = pool_with_client(None, Some(limit(3600, 1_000_000_000)));
    for i in 0..105u64 {
        let player = format!("player{}", i);
        let triggered = process(
            &mut state,
            &block(5 + i, 50),
            &addr("game"),
            &player,
            &None,
            &Some(AccountTokenAmount { address: player.clone(), amount: 500 }),
        )
        .unwrap();
        assert!(triggered);
    }
    assert_eq!(state.events_len(), 100);
    assert_eq!(
        state.event_at(0),
        &HouseEvent::AccountRateLimitTriggered {
            block: block(109, 50),
            client: addr("game"),
            initiator: addr("player104"),
        }
    );
    assert_eq!(
        state.event_at(99),
        &HouseEvent::AccountRateLimitTriggered {
            block: block(10, 50),
            client: addr("game"),
            initiator: addr("player5"),
        }
    );
}

#[test]
fn earn_and_pay_are_jobs_of_one_direction() {
    let mut state = pool_with_client(None, None);
    assert_eq!(
        earn(&mut state, &block(5, 50), &addr("game"), 0, None),
        Err(ContractError::InsufficientAmount)
    );
    earn(&mut state, &block(5, 50), &addr("game"), 40, Some(addr("player"))).unwrap();
    assert_eq!(state.pool().liquidity, 1_040);
    assert_eq!(client(&state, "game").revenue, 40);
    assert_eq!(state.usage(&addr("game")), None);

    assert_eq!(
        pay(&mut state, &block(6, 51), &addr("game"), 0, &addr("winner")),
        Err(ContractError::InsufficientAmount)
    );
    assert_eq!(pay(&mut state, &block(6, 51), &addr("game"), 100, &addr("winner")), Ok(false));
    assert_eq!(state.pool().liquidity, 940);
    assert_eq!(client(&state, "game").expense, 100);
    assert_eq!(state.usage(&addr("winner")).unwrap().spent, 100);
    assert_eq!(pay(&mut state, &block(7, 52), &addr("game"), 160, &addr("other")), Ok(true));
    assert_eq!(state.pool().liquidity, 940);
    assert!(client(&state, "game").is_suspended);
}

#[test]
fn batch_adds_up_what_moves_for_each_address() {
    let state = pool_with_client(Some(1_000), None);
    let jobs = vec![
        Job { initiator: addr("p"), incoming: amount("p", 30), outgoing: amount("p", 10) },
        Job { initiator: addr("q"), incoming: amount("q", 5), outgoing: None },
        Job { initiator: addr("p"), incoming: amount("p", 1), outgoing: amount("r", 3) },
        Job { initiator: addr("p"), incoming: amount("p", 0), outgoing: amount("r", 0) },
    ];
    let (state, moved) = process_many(state, &block(5, 50), &addr("game"), &jobs).unwrap();
    assert!(moved.refunds.is_empty());
    assert_eq!(moved.incoming.len(), 2);
    assert_eq!(moved.incoming.address_at(0), "p");
    assert_eq!(*moved.incoming.get(0), 31);
    assert_eq!(moved.incoming.address_at(1), "q");
    assert_eq!(*moved.incoming.get(1), 5);
    assert_eq!(moved.outgoing.len(), 2);
    assert_eq!(moved.outgoing.address_at(0), "p");
    assert_eq!(*moved.outgoing.get(0), 10);
    assert_eq!(moved.outgoing.address_at(1), "r");
    assert_eq!(*moved.outgoing.get(1), 3);
    assert_eq!(state.pool().liquidity, 1_000 + 20 + 5 - 2);
    assert_eq!(state.client_execution_count(&addr("game")), 4);
    assert_eq!(client(&state, "game").config.budget, Some(1_000 - 13));
    assert!(house::validation::is_valid(&state));
}

#[test]
fn batch_refunds_a_job_that_triggers_the_limiter() {
    let state = pool_with_client(None, Some(limit(3600, 1_000_000)));
    let jobs = vec![
        Job { initiator: addr("p"), incoming: amount("p", 7), outgoing: amount("p", 600) },
    ];
    let (state, moved) = process_many(state, &block(5, 50), &addr("game"), &jobs).unwrap();
    assert_eq!(moved.refunds, vec![AccountTokenAmount { address: addr("p"), amount: 7 }]);
    assert_eq!(moved.incoming.len(), 0);
    assert_eq!(moved.outgoing.len(), 0);
    assert_eq!(state.pool().liquidity, 1_000);
    assert_eq!(state.client_execution_count(&addr("game")), 1);
}

#[test]
fn batch_fails_with_its_first_failing_job() {
    let state = pool_with_client(Some(10), None);
    let jobs = vec![
        Job { initiator: addr("p"), incoming: None, outgoing: amount("p", 6) },
        Job { initiator: addr("p"), incoming: None, outgoing: amount("p", 6) },
    ];
    assert!(matches!(
        process_many(state, &block(5, 50), &addr("game"), &jobs),
        Err(ContractError::BudgetExceeded)
    ));
    let state = pool_with_client(None, None);
    assert!(matches!(
        process_many(state, &block(5, 50), &addr("nobody"), &vec![]),
        Err(ContractError::ClientNotFound)
    ));
    let state = pool_with_client(None, None);
    let (state, moved) = process_one(
        state,
        &block(5, 50),
        &addr("game"),
        addr("p"),
        amount("p", 9),
        None,
    )
    .unwrap();
    assert_eq!(*moved.incoming.get(0), 9);
    assert_eq!(state.client_execution_count(&addr("game")), 1);
    assert_eq!(state.pool().liquidity, 1_009);
}

#[test]
fn spending_is_refused_to_a_limited_address() {
    let mut state = pool_with_client(None, Some(limit(3600, 1_000_000)));
    assert!(can_spend(&state, &block(5, 50), &addr("game"), &addr("p"), Some(400)).can_spend);
    process(&mut state, &block(5, 50), &addr("game"), &addr("p"), &None, &amount("p", 400)).unwrap();
    // in the same block
    assert!(!can_spend(&state, &block(5, 51), &addr("game"), &addr("p"), None).can_spend);
    // the account limit is half of the 1000 at the start of the window
    assert!(can_spend(&state, &block(6, 51), &addr("game"), &addr("other"), Some(99)).can_spend);
    assert!(!can_spend(&state, &block(6, 51), &addr("game"), &addr("other"), Some(100)).can_spend);
    assert!(is_rate_limited(&state, &block(6, 51), &limit(3600, 500_000), &addr("p"), Some(100)));
    assert!(!is_rate_limited(&state, &block(6, 51), &limit(3600, 500_000), &addr("p"), Some(99)));
    assert!(!is_rate_limited(&state, &block(6, 51), &limit(3600, 500_000), &addr("x"), Some(9_999)));
    // once the window has passed
    assert!(!is_rate_limited(&state, &block(6, 3_650), &limit(3600, 500_000), &addr("p"), Some(9_999)));
    assert!(can_spend(&state, &block(6, 3_650), &addr("game"), &addr("p"), Some(9_999)).can_spend);
}

#[test]
fn client_is_shown_with_its_address_and_its_jobs() {
    let state = pool_with_client(Some(50), None);
    let (state, _) = process_one(state, &block(5, 50), &addr("game"), addr("p"), amount("p", 9), None).unwrap();
    let shown = query_client(&state, &addr("game")).client.unwrap();
    assert_eq!(shown.address, "game");
    assert_eq!(shown.executions, 1);
    assert_eq!(shown.revenue, 9);
    assert_eq!(shown.expense, 0);
    assert_eq!(shown.config.budget, Some(50));
    assert_eq!(shown.connected_at, at(3));
    assert!(!shown.is_suspended);
    assert_eq!(query_client(&state, &addr("nobody")).client, None);
}

#[test]
fn limiter_does_not_hold_block_zero_against_a_fresh_address() {
    let (event, record) = throttle(None, &block(0, 100), 1_000, 0, 1, &limit(60, 100_000)).unwrap();
    assert_eq!(event, None);
    assert_eq!(record.prev_height, 0);
    let (event, _) = throttle(Some(record), &block(0, 100), 1_000, 0, 1, &limit(60, 100_000)).unwrap();
    assert_eq!(event, Some(RateLimitEvent::Throttled));
}
