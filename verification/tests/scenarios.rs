use house::error::ContractError;
use house::execute::client::connect;
use house::execute::pool::{claim, stake, unstake, withdraw};
use house::execute::process::process;
use house::execute::receive::receive;
use house::models::{
    AccountTokenAmount, BlockInfo, ClientInitArgs, Config, Owner, RateLimitConfig, StakeAccount,
    Timestamp, Token,
};
use house::state::{sync_account_readonly, State};

const SECOND: u64 = 1_000_000_000;

fn config(tax_rate: u128, restake_rate: u128) -> Config {
    Config {
        restake_rate,
        tax_rate,
        unbonding_seconds: 60,
        account_rate_limit: RateLimitConfig { interval_seconds: 3600, max_pct_change: 1_000_000 },
        default_client_rate_limit: RateLimitConfig {
            interval_seconds: 3600,
            max_pct_change: 1_000_000,
        },
    }
}

fn pool_with(tax_rate: u128, restake_rate: u128) -> State {
    State::new(
        Owner::Address("owner".to_string()),
        Token::Native { denom: "ujuno".to_string() },
        config(tax_rate, restake_rate),
    )
    .unwrap()
}

fn at(seconds: u64) -> Timestamp {
    Timestamp { nanos: seconds * SECOND }
}

fn block(height: u64, seconds: u64) -> BlockInfo {
    BlockInfo { height, time: at(seconds) }
}

fn current(state: &State, address: &str) -> StakeAccount {
    let mut account = state.stake_account(&address.to_string()).unwrap();
    sync_account_readonly(state, &mut account, true).unwrap();
    account
}

fn connect_client(state: &mut State, address: &str, budget: Option<u128>) {
    connect(
        state,
        at(0),
        &"owner".to_string(),
        false,
        ClientInitArgs {
            address: Some(address.to_string()),
            name: None,
            description: None,
            url: None,
            budget,
            rate_limit: None,
        },
    )
    .unwrap();
}

#[test]
fn revenue_is_shared_in_proportion_to_liquidity() {
    let mut state = pool_with(0, 1_000_000);
    stake(&mut state, &"a".to_string(), 100).unwrap();
    stake(&mut state, &"b".to_string(), 300).unwrap();
    receive(&mut state, &"source".to_string(), Timestamp { nanos: 0 }, 400).unwrap();

    assert_eq!(current(&state, "a").liquidity, 200);
    assert_eq!(current(&state, "b").liquidity, 600);
    assert_eq!(state.pool().liquidity, 800);
    assert_eq!(state.pool().delegation, 400);
    assert_eq!(state.pool().dividends, 0);
}

#[test]
fn payment_is_borne_by_the_sole_staker() {
    let mut state = pool_with(0, 1_000_000);
    stake(&mut state, &"a".to_string(), 100).unwrap();
    connect_client(&mut state, "game", None);
    let triggered = process(
        &mut state,
        &block(10, 5),
        &"game".to_string(),
        &"game".to_string(),
        &None,
        &Some(AccountTokenAmount { address: "winner".to_string(), amount: 40 }),
    )
    .unwrap();

    assert!(!triggered);
    assert_eq!(current(&state, "a").liquidity, 60);
    assert_eq!(state.pool().liquidity, 60);
}

#[test]
fn unbonding_account_can_only_withdraw_and_only_in_time() {
    let mut state = pool_with(0, 1_000_000);
    let a = "a".to_string();
    stake(&mut state, &a, 100).unwrap();
    assert_eq!(unstake(&mut state, &a, at(1000)), Ok(100));
    assert_eq!(state.pool().liquidity, 0);
    assert_eq!(state.stake_account(&a).unwrap().unbonding.unwrap().amount, 100);

    assert_eq!(claim(&mut state, &a), Err(ContractError::NotYetUnbonding));
    assert_eq!(stake(&mut state, &a, 5), Err(ContractError::NotYetUnbonding));
    assert_eq!(unstake(&mut state, &a, at(1001)), Err(ContractError::AlreadyUnbonding));
    assert_eq!(withdraw(&mut state, &a, at(1030)), Err(ContractError::StillUnbonding));
    assert_eq!(withdraw(&mut state, &a, at(1060)), Err(ContractError::StillUnbonding));

    assert_eq!(withdraw(&mut state, &a, at(1061)), Ok(100));
    assert_eq!(state.stake_account(&a), None);
    assert_eq!(state.n_stake_accounts(), 0);
    assert_eq!(state.n_stake_accounts_unbonding(), 0);
    assert_eq!(withdraw(&mut state, &a, at(2000)), Err(ContractError::StakeAccountNotFound));
}
