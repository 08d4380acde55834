use house::execute::client::connect;
use house::execute::pool::{claim, stake, unstake, withdraw};
use house::execute::process::process;
use house::execute::receive::receive;
use house::models::{
    AccountTokenAmount, BlockInfo, ClientInitArgs, Config, Owner, RateLimitConfig, StakeAccount,
    Timestamp, Token,
};
use house::scheduler::amortize;
use house::state::{sync_account_readonly, State};
use house::validation::is_valid;

const NAMES: [&str; 6] = ["a", "b", "c", "d", "e", "f"];

struct Dice(u64);

impl Dice {
    fn roll(&mut self, sides: u64) -> u64 {
        self.0 = self.0.wrapping_mul(6364136223846793005).wrapping_add(1442695040888963407);
        (self.0 >> 33) % sides
    }
}

fn pool() -> State {
    State::new(
        Owner::Address("owner".to_string()),
        Token::Native { denom: "ujuno".to_string() },
        Config {
            restake_rate: 600_000,
            tax_rate: 70_000,
            unbonding_seconds: 5,
            account_rate_limit: RateLimitConfig {
                interval_seconds: 10,
                max_pct_change: 1_000_000_000,
            },
            default_client_rate_limit: RateLimitConfig {
                interval_seconds: 10,
                max_pct_change: 1_000_000_000,
            },
        },
    )
    .unwrap()
}

fn at(seconds: u64) -> Timestamp {
    Timestamp { nanos: seconds * 1_000_000_000 }
}

/// What the accounts that are not unbonding hold once they are up to date.
fn owed(state: &State) -> Option<(u128, u128, u128)> {
    let mut liquidity = 0u128;
    let mut dividends = 0u128;
    let mut delegation = 0u128;
    for name in NAMES {
        if let Some(kept) = state.stake_account(&name.to_string()) {
            if kept.unbonding.is_none() {
                let mut account: StakeAccount = kept;
                if sync_account_readonly(state, &mut account, true).is_err() {
                    return None;
                }
                liquidity += account.liquidity;
                dividends += account.dividends;
                delegation += account.delegation;
            }
        }
    }
    Some((liquidity, dividends, delegation))
}

fn totals(state: &State) -> (u128, u128, u128, u128, u128, u32, u128) {
    (
        state.pool().delegation,
        state.pool().liquidity,
        state.pool().dividends,
        state.pool().taxes,
        state.ledger_entry_seq_no(),
        state.n_ledger_entries(),
        state.n_delegation_mutations(),
    )
}

#[test]
fn pool_without_payments_stays_valid_solvent_and_unstuck() {
    for seed in 1..=20u64 {
        let mut dice = Dice(seed);
        let mut state = pool();
        let mut now = 0u64;
        let mut places = [0u128; 6];
        for _ in 0..300 {
            now += dice.roll(4);
            let who = dice.roll(6) as usize;
            let address = NAMES[who].to_string();
            let before = totals(&state);
            let done = match dice.roll(7) {
                0 | 1 => stake(&mut state, &address, 1 + dice.roll(1_000) as u128).is_ok(),
                2 => unstake(&mut state, &address, at(now)).is_ok(),
                3 => claim(&mut state, &address).is_ok(),
                4 => withdraw(&mut state, &address, at(now)).is_ok(),
                5 => receive(&mut state, &"source".to_string(), Timestamp { nanos: 0 }, dice.roll(5_000) as u128).is_ok(),
                _ => amortize(&mut state).is_ok(),
            };
            if !done {
                assert_eq!(totals(&state), before);
            }
            assert!(is_valid(&state));
            let (liquidity, dividends, delegation) =
                owed(&state).expect("an account that is not unbonding is never stuck");
            assert!(liquidity <= state.pool().liquidity);
            assert!(dividends <= state.pool().dividends);
            assert_eq!(delegation, state.pool().delegation);
            for (i, name) in NAMES.iter().enumerate() {
                if let Some(account) = state.stake_account(&name.to_string()) {
                    assert!(places[i] <= account.seq_no);
                    assert!(account.seq_no <= state.ledger_entry_seq_no());
                    places[i] = account.seq_no;
                }
            }
        }
    }
}

#[test]
fn pool_with_payments_stays_valid_and_fails_without_a_trace() {
    for seed in 1..=20u64 {
        let mut dice = Dice(seed * 7919);
        let mut state = pool();
        connect(
            &mut state,
            at(0),
            &"owner".to_string(),
            false,
            ClientInitArgs {
                address: Some("game".to_string()),
                name: None,
                description: None,
                url: None,
                budget: None,
                rate_limit: None,
            },
        )
        .unwrap();
        let mut now = 0u64;
        for step in 0..300u64 {
            now += 1 + dice.roll(4);
            let address = NAMES[dice.roll(6) as usize].to_string();
            let before = totals(&state);
            let coming = dice.roll(200) as u128;
            let going = dice.roll(200) as u128;
            let done = match dice.roll(7) {
                0 | 1 => stake(&mut state, &address, 1 + dice.roll(1_000) as u128).is_ok(),
                2 => unstake(&mut state, &address, at(now)).is_ok(),
                3 => claim(&mut state, &address).is_ok(),
                4 => withdraw(&mut state, &address, at(now)).is_ok(),
                _ => process(
                    &mut state,
                    &BlockInfo { height: 1 + step, time: at(now) },
                    &"game".to_string(),
                    &address,
                    &Some(AccountTokenAmount { address: address.clone(), amount: coming }),
                    &Some(AccountTokenAmount { address: address.clone(), amount: going }),
                )
                .is_ok(),
            };
            if !done {
                assert_eq!(totals(&state), before);
            }
            assert!(is_valid(&state));
            if let Some((_, _, delegation)) = owed(&state) {
                assert_eq!(delegation, state.pool().delegation);
            }
        }
    }
}

#[test]
fn two_stakers_of_one_do_not_share_a_payment_of_one() {
    let mut state = pool();
    connect(
        &mut state,
        at(0),
        &"owner".to_string(),
        false,
        ClientInitArgs {
            address: Some("game".to_string()),
            name: None,
            description: None,
            url: None,
            budget: Some(10),
            rate_limit: None,
        },
    )
    .unwrap();
    stake(&mut state, &"a".to_string(), 1).unwrap();
    stake(&mut state, &"b".to_string(), 1).unwrap();
    process(
        &mut state,
        &BlockInfo { height: 1, time: at(1) },
        &"game".to_string(),
        &"winner".to_string(),
        &None,
        &Some(AccountTokenAmount { address: "winner".to_string(), amount: 1 }),
    )
    .unwrap();
    // each bears 1 * 1 / 2 = 0 of the loss
    assert_eq!(owed(&state), Some((2, 0, 2)));
    assert_eq!(state.pool().liquidity, 1);
    assert!(is_valid(&state));
    assert_eq!(unstake(&mut state, &"a".to_string(), at(2)), Ok(1));
    assert_eq!(
        unstake(&mut state, &"b".to_string(), at(2)),
        Err(house::error::ContractError::InvariantViolation)
    );
}
