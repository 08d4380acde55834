use house::error::ContractError;
use house::execute::pool::{claim, stake, unstake, withdraw};
use house::execute::receive::receive;
use house::ledger::apply_entry;
use house::models::{
    Config, LedgerEntry, Owner, RateLimitConfig, StakeAccount, Timestamp, Token,
};
use house::scheduler::amortize;
use house::state::{
    ensure_min_amount, load_stake_account, sync_account_readonly, upsert_ledger_entry, State,
};
use house::utils::{decrement, increment, mul_pct};

const SECOND: u64 = 1_000_000_000;

fn config(tax_rate: u128, restake_rate: u128) -> Config {
    Config {
        restake_rate,
        tax_rate,
        unbonding_seconds: 60,
        account_rate_limit: RateLimitConfig { interval_seconds: 3600, max_pct_change: 1_000_000 },
        default_client_rate_limit: RateLimitConfig {
            interval_seconds: 3600,
            max_pct_change: 1_000_000,
        },
    }
}

fn pool_with(tax_rate: u128, restake_rate: u128) -> State {
    State::new(
        Owner::Address("owner".to_string()),
        Token::Native { denom: "ujuno".to_string() },
        config(tax_rate, restake_rate),
    )
    .unwrap()
}

fn at(seconds: u64) -> Timestamp {
    Timestamp { nanos: seconds * SECOND }
}

fn addr(name: &str) -> String {
    name.to_string()
}

fn kept(state: &State, address: &str) -> StakeAccount {
    state.stake_account(&addr(address)).unwrap()
}

fn current(state: &State, address: &str) -> StakeAccount {
    let mut account = kept(state, address);
    sync_account_readonly(state, &mut account, true).unwrap();
    account
}

fn entry(liquidity: u128, revenue: u128, dividends: u128, loss: u128) -> LedgerEntry {
    LedgerEntry {
        liquidity,
        delegation: liquidity,
        delta_revenue: revenue,
        delta_dividends: dividends,
        delta_loss: loss,
        ref_count: 1,
        tag: 0,
    }
}

#[test]
fn new_pool_is_empty() {
    let state = pool_with(0, 1_000_000);
    assert_eq!(state.pool().liquidity, 0);
    assert_eq!(state.pool().delegation, 0);
    assert_eq!(state.pool().dividends, 0);
    assert_eq!(state.pool().taxes, 0);
    assert_eq!(state.ledger_entry_seq_no(), 0);
    assert_eq!(state.n_ledger_entries(), 0);
    assert_eq!(state.n_stake_accounts(), 0);
    assert_eq!(state.n_stake_accounts_unbonding(), 0);
    assert_eq!(state.n_delegation_mutations(), 0);
    assert_eq!(state.memoization_queue_len(), 0);
    assert!(house::validation::is_valid(&state));
}

#[test]
fn new_pool_rejects_a_rate_above_the_whole() {
    let made = State::new(
        Owner::Address(addr("owner")),
        Token::Native { denom: addr("ujuno") },
        config(1_000_001, 0),
    );
    assert!(matches!(made, Err(ContractError::ValidationError)));
    let made = State::new(
        Owner::Address(addr("owner")),
        Token::Native { denom: addr("ujuno") },
        config(0, 1_000_001),
    );
    assert!(matches!(made, Err(ContractError::ValidationError)));
}

#[test]
fn mul_pct_scales_by_millionths_and_rounds_down() {
    assert_eq!(mul_pct(1_000, 250_000), Ok(250));
    assert_eq!(mul_pct(999, 500_000), Ok(499));
    assert_eq!(mul_pct(7, 1_000_000), Ok(7));
    assert_eq!(mul_pct(7, 0), Ok(0));
    assert_eq!(mul_pct(u128::MAX, 1_000_000), Ok(u128::MAX));
    assert_eq!(mul_pct(u128::MAX, 1_000_001), Err(ContractError::Overflow));
}

#[test]
fn increment_and_decrement_are_checked() {
    assert_eq!(increment(2, 3), Ok(5));
    assert_eq!(increment(u128::MAX, 1), Err(ContractError::Overflow));
    assert_eq!(decrement(5, 3), Ok(2));
    assert_eq!(decrement(3, 5), Err(ContractError::InvariantViolation));
}

#[test]
fn ensure_min_amount_rejects_less() {
    assert_eq!(ensure_min_amount(0, 1), Err(ContractError::InsufficientAmount));
    assert_eq!(ensure_min_amount(1, 1), Ok(()));
    assert_eq!(ensure_min_amount(5, 1), Ok(()));
}

#[test]
fn entry_shares_are_rounded_down() {
    // 5 * 99 / 100 = 4.95, 7 * 99 / 100 = 6.93, 3 * 99 / 100 = 2.97
    let account = StakeAccount { dividends: 10, ..StakeAccount::new(99, 0) };
    let after = apply_entry(&account, &entry(100, 5, 7, 3)).unwrap();
    assert_eq!(after.liquidity, 99 + 4 - 2);
    assert_eq!(after.dividends, 10 + 6);
    assert_eq!(after.delegation, 99);
    assert_eq!(after.seq_no, 0);
}

#[test]
fn entry_with_zero_snapshot_is_an_invariant_violation() {
    let account = StakeAccount::new(10, 0);
    assert_eq!(
        apply_entry(&account, &entry(0, 5, 0, 0)),
        Err(ContractError::InvariantViolation)
    );
}

#[test]
fn entry_with_zero_count_is_an_invariant_violation() {
    let account = StakeAccount::new(10, 0);
    let unowed = LedgerEntry { ref_count: 0, ..entry(10, 5, 0, 0) };
    assert_eq!(apply_entry(&account, &unowed), Err(ContractError::InvariantViolation));
}

#[test]
fn entry_loss_beyond_the_balance_is_an_invariant_violation() {
    let account = StakeAccount::new(10, 0);
    assert_eq!(
        apply_entry(&account, &entry(10, 0, 0, 11)),
        Err(ContractError::InvariantViolation)
    );
}

#[test]
fn entry_share_beyond_128_bits_is_an_overflow() {
    let account = StakeAccount::new(u128::MAX, 0);
    assert_eq!(apply_entry(&account, &entry(1, 2, 0, 0)), Err(ContractError::Overflow));
    let account = StakeAccount::new(u128::MAX, 0);
    assert_eq!(
        apply_entry(&account, &entry(u128::MAX, 1, 0, 0)),
        Err(ContractError::Overflow)
    );
}

#[test]
fn equal_liquidity_takes_equal_shares() {
    let first = StakeAccount { dividends: 3, ..StakeAccount::new(333, 0) };
    let second = StakeAccount { dividends: 8, delegation: 100, ..StakeAccount::new(333, 0) };
    let shared = entry(1_000, 77, 13, 5);
    let a = apply_entry(&first, &shared).unwrap();
    let b = apply_entry(&second, &shared).unwrap();
    assert_eq!(a.liquidity, b.liquidity);
    assert_eq!(a.dividends - first.dividends, b.dividends - second.dividends);
    assert_eq!(a.liquidity, 333 + 25 - 1);
    assert_eq!(a.dividends - 3, 4);
}

#[test]
fn first_stake_opens_an_account_at_the_end_of_the_ledger() {
    let mut state = pool_with(0, 1_000_000);
    stake(&mut state, &addr("a"), 100).unwrap();
    receive(&mut state, &"source".to_string(), Timestamp { nanos: 0 }, 10).unwrap();
    stake(&mut state, &addr("b"), 50).unwrap();

    assert_eq!(kept(&state, "b"), StakeAccount::new(50, 1));
    assert_eq!(state.n_stake_accounts(), 2);
    assert_eq!(state.memoization_queue_len(), 2);
    assert_eq!(state.pool().delegation, 150);
    assert_eq!(state.pool().liquidity, 160);
    assert_eq!(state.n_delegation_mutations(), 2);
    assert!(house::validation::is_valid(&state));
}

#[test]
fn staking_again_adds_to_the_account() {
    let mut state = pool_with(0, 1_000_000);
    stake(&mut state, &addr("a"), 100).unwrap();
    stake(&mut state, &addr("a"), 20).unwrap();
    let account = kept(&state, "a");
    assert_eq!(account.delegation, 120);
    assert_eq!(account.liquidity, 120);
    assert_eq!(state.n_stake_accounts(), 1);
    assert_eq!(state.memoization_queue_len(), 1);
    assert_eq!(state.pool().delegation, 120);
}

#[test]
fn stake_of_nothing_is_rejected() {
    let mut state = pool_with(0, 1_000_000);
    assert_eq!(stake(&mut state, &addr("a"), 0), Err(ContractError::InsufficientAmount));
    assert_eq!(state.n_stake_accounts(), 0);
    stake(&mut state, &addr("a"), 1).unwrap();
    assert_eq!(stake(&mut state, &addr("a"), 0), Err(ContractError::InsufficientAmount));
}

#[test]
fn stake_beyond_128_bits_is_an_overflow_and_changes_nothing() {
    let mut state = pool_with(0, 1_000_000);
    stake(&mut state, &addr("a"), u128::MAX).unwrap();
    assert_eq!(stake(&mut state, &addr("b"), 1), Err(ContractError::Overflow));
    assert_eq!(stake(&mut state, &addr("a"), 1), Err(ContractError::Overflow));
    assert_eq!(state.n_stake_accounts(), 1);
    assert_eq!(state.pool().delegation, u128::MAX);
    assert_eq!(state.n_delegation_mutations(), 1);
}

#[test]
fn unknown_account_cannot_unstake_claim_or_withdraw() {
    let mut state = pool_with(0, 1_000_000);
    assert_eq!(unstake(&mut state, &addr("a"), at(1)), Err(ContractError::StakeAccountNotFound));
    assert_eq!(claim(&mut state, &addr("a")), Err(ContractError::StakeAccountNotFound));
    assert_eq!(withdraw(&mut state, &addr("a"), at(1)), Err(ContractError::StakeAccountNotFound));
    assert_eq!(
        load_stake_account(&state, &addr("a")),
        Err(ContractError::StakeAccountNotFound)
    );
}

#[test]
fn withdraw_needs_an_unstake_first() {
    let mut state = pool_with(0, 1_000_000);
    stake(&mut state, &addr("a"), 100).unwrap();
    assert_eq!(withdraw(&mut state, &addr("a"), at(1_000_000)), Err(ContractError::NotUnstaked));
    assert_eq!(kept(&state, "a").liquidity, 100);
}

#[test]
fn revenue_is_split_into_tax_liquidity_and_dividends() {
    // 10 % tax, 25 % of the rest restaked
    let mut state = pool_with(100_000, 250_000);
    stake(&mut state, &addr("a"), 1_000).unwrap();
    receive(&mut state, &"source".to_string(), Timestamp { nanos: 0 }, 1_001).unwrap();

    // tax 100 (100.1), rest 901, restaked 225 (225.25), dividends 676
    assert_eq!(state.pool().taxes, 100);
    assert_eq!(state.pool().liquidity, 1_225);
    assert_eq!(state.pool().dividends, 676);
    assert_eq!(state.total_stream_revenue(), 1_001);
    let shared = state.ledger_entry(0).unwrap();
    assert_eq!(shared.delta_revenue, 225);
    assert_eq!(shared.delta_dividends, 676);
    assert_eq!(shared.delta_loss, 0);
    assert_eq!(shared.liquidity, 1_000);
    assert_eq!(shared.delegation, 1_000);
    assert_eq!(shared.ref_count, 1);
    assert_eq!(shared.tag, 1);

    let account = current(&state, "a");
    assert_eq!(account.liquidity, 1_225);
    assert_eq!(account.dividends, 676);
}

#[test]
fn revenue_of_nothing_is_rejected() {
    let mut state = pool_with(0, 1_000_000);
    assert_eq!(receive(&mut state, &"source".to_string(), Timestamp { nanos: 0 }, 0), Err(ContractError::InsufficientAmount));
    assert_eq!(state.ledger_entry_seq_no(), 0);
}

#[test]
fn claim_pays_the_dividends_out() {
    let mut state = pool_with(0, 0);
    stake(&mut state, &addr("a"), 100).unwrap();
    stake(&mut state, &addr("b"), 300).unwrap();
    receive(&mut state, &"source".to_string(), Timestamp { nanos: 0 }, 40).unwrap();
    assert_eq!(state.pool().dividends, 40);

    assert_eq!(claim(&mut state, &addr("a")), Ok(10));
    assert_eq!(state.pool().dividends, 30);
    assert_eq!(kept(&state, "a").dividends, 0);
    assert_eq!(kept(&state, "a").seq_no, 1);
    assert_eq!(claim(&mut state, &addr("a")), Ok(0));
    assert_eq!(claim(&mut state, &addr("b")), Ok(30));
    assert_eq!(state.pool().dividends, 0);
    assert_eq!(state.pool().liquidity, 400);
}

#[test]
fn unstake_takes_liquidity_and_dividends_out_together() {
    let mut state = pool_with(0, 500_000);
    stake(&mut state, &addr("a"), 100).unwrap();
    receive(&mut state, &"source".to_string(), Timestamp { nanos: 0 }, 60).unwrap();

    assert_eq!(unstake(&mut state, &addr("a"), at(7)), Ok(160));
    let account = kept(&state, "a");
    assert_eq!(account.liquidity, 0);
    assert_eq!(account.dividends, 0);
    assert_eq!(account.delegation, 0);
    assert_eq!(account.unbonding.unwrap().amount, 160);
    assert_eq!(account.unbonding.unwrap().time, at(7));
    assert_eq!(state.pool().liquidity, 0);
    assert_eq!(state.pool().dividends, 0);
    assert_eq!(state.pool().delegation, 0);
    assert_eq!(state.n_stake_accounts(), 1);
    assert_eq!(state.n_stake_accounts_unbonding(), 1);
    assert!(house::validation::is_valid(&state));
}

#[test]
fn rounding_dust_stays_with_the_pool() {
    let mut state = pool_with(0, 1_000_000);
    stake(&mut state, &addr("a"), 1).unwrap();
    stake(&mut state, &addr("b"), 1).unwrap();
    stake(&mut state, &addr("c"), 1).unwrap();
    receive(&mut state, &"source".to_string(), Timestamp { nanos: 0 }, 2).unwrap();

    // each takes 2 * 1 / 3 = 0
    let held: u128 = ["a", "b", "c"].iter().map(|a| current(&state, a).liquidity).sum();
    assert_eq!(held, 3);
    assert_eq!(state.pool().liquidity, 5);
    assert!(held <= state.pool().liquidity);

    receive(&mut state, &"source".to_string(), Timestamp { nanos: 0 }, 1).unwrap();
    // the entry holds 3 now, and each takes 3 * 1 / 3 = 1
    let held: u128 = ["a", "b", "c"].iter().map(|a| current(&state, a).liquidity).sum();
    assert_eq!(held, 6);
    assert_eq!(state.pool().liquidity, 6);
}

#[test]
fn revenues_between_stake_changes_share_one_entry() {
    let mut state = pool_with(100_000, 500_000);
    stake(&mut state, &addr("a"), 1_000).unwrap();
    for revenue in [100u128, 201, 302, 3] {
        receive(&mut state, &"source".to_string(), Timestamp { nanos: 0 }, revenue).unwrap();
    }
    // taxes 10, 20, 30, 0; rests 90, 181, 272, 3; restaked 45, 90, 136, 1
    assert_eq!(state.ledger_entry_seq_no(), 1);
    assert_eq!(state.n_ledger_entries(), 1);
    let shared = state.ledger_entry(0).unwrap();
    assert_eq!(shared.delta_revenue, 45 + 90 + 136 + 1);
    assert_eq!(shared.delta_dividends, 45 + 91 + 136 + 2);
    assert_eq!(shared.liquidity, 1_000);

    stake(&mut state, &addr("b"), 5).unwrap();
    receive(&mut state, &"source".to_string(), Timestamp { nanos: 0 }, 10).unwrap();
    assert_eq!(state.ledger_entry_seq_no(), 2);
    // tax 1, rest 9, restaked 4 (4.5)
    assert_eq!(state.ledger_entry(1).unwrap().delta_revenue, 4);
    assert_eq!(state.ledger_entry(1).unwrap().delta_dividends, 5);
    assert_eq!(state.ledger_entry(1).unwrap().liquidity, 1_000 + 272 + 5);
    assert_eq!(state.ledger_entry(1).unwrap().ref_count, 2);
}

#[test]
fn entry_leaves_the_ledger_when_its_last_account_has_replayed_it() {
    let mut state = pool_with(0, 0);
    stake(&mut state, &addr("a"), 100).unwrap();
    stake(&mut state, &addr("b"), 100).unwrap();
    receive(&mut state, &"source".to_string(), Timestamp { nanos: 0 }, 10).unwrap();
    assert_eq!(state.ledger_entry(0).unwrap().ref_count, 2);

    claim(&mut state, &addr("a")).unwrap();
    assert_eq!(state.ledger_entry(0).unwrap().ref_count, 1);
    assert_eq!(state.n_ledger_entries(), 1);

    claim(&mut state, &addr("a")).unwrap();
    assert_eq!(state.ledger_entry(0).unwrap().ref_count, 1);

    claim(&mut state, &addr("b")).unwrap();
    assert_eq!(state.ledger_entry(0), None);
    assert_eq!(state.n_ledger_entries(), 0);
    assert_eq!(state.ledger_entry_seq_no(), 1);
    assert!(house::validation::is_valid(&state));
}

#[test]
fn account_never_moves_back_in_the_ledger() {
    let mut state = pool_with(0, 1_000_000);
    stake(&mut state, &addr("a"), 100).unwrap();
    stake(&mut state, &addr("b"), 100).unwrap();
    let mut seen = 0;
    for round in 0..6u128 {
        receive(&mut state, &"source".to_string(), Timestamp { nanos: 0 }, 10 + round).unwrap();
        if round % 2 == 0 {
            claim(&mut state, &addr("a")).unwrap();
        } else {
            stake(&mut state, &addr("b"), 1).unwrap();
        }
        let place = kept(&state, "a").seq_no;
        assert!(seen <= place);
        assert!(place <= state.ledger_entry_seq_no());
        assert!(kept(&state, "b").seq_no <= state.ledger_entry_seq_no());
        seen = place;
    }
    assert_eq!(state.ledger_entry_seq_no(), 6);
}

#[test]
fn sync_with_an_empty_ledger_does_nothing() {
    let mut state = pool_with(0, 1_000_000);
    stake(&mut state, &addr("a"), 100).unwrap();
    let mut account = kept(&state, "a");
    let updates = sync_account_readonly(&state, &mut account, true).unwrap();
    assert_eq!(account, kept(&state, "a"));
    assert!(updates.zombie_entry_indices.is_empty());
    assert!(updates.updated_entries.is_empty());
}

#[test]
fn sync_in_passing_stops_short_of_the_latest_entry() {
    let mut state = pool_with(0, 1_000_000);
    stake(&mut state, &addr("a"), 100).unwrap();
    stake(&mut state, &addr("b"), 100).unwrap();
    receive(&mut state, &"source".to_string(), Timestamp { nanos: 0 }, 20).unwrap();
    stake(&mut state, &addr("b"), 10).unwrap();
    receive(&mut state, &"source".to_string(), Timestamp { nanos: 0 }, 23).unwrap();
    // "a" has replayed nothing for good yet
    let mut in_passing = StakeAccount::new(100, 0);
    let updates = sync_account_readonly(&state, &mut in_passing, false).unwrap();
    assert_eq!(in_passing.seq_no, 1);
    assert_eq!(in_passing.liquidity, 110);
    assert_eq!(updates.zombie_entry_indices, vec![0]);
    assert!(updates.updated_entries.is_empty());

    let mut for_good = StakeAccount::new(100, 0);
    let updates = sync_account_readonly(&state, &mut for_good, true).unwrap();
    assert_eq!(for_good.seq_no, 2);
    // 110 + 23 * 110 / 230 = 110 + 11
    assert_eq!(for_good.liquidity, 121);
    assert_eq!(updates.zombie_entry_indices, vec![0]);
    assert_eq!(updates.updated_entries.len(), 1);
    assert_eq!(updates.updated_entries[0].0, 1);
    assert_eq!(updates.updated_entries[0].1.ref_count, 1);
}

#[test]
fn queue_is_turned_and_the_first_account_behind_is_brought_up() {
    let mut state = pool_with(0, 1_000_000);
    stake(&mut state, &addr("a"), 100).unwrap();
    stake(&mut state, &addr("b"), 100).unwrap();
    receive(&mut state, &"source".to_string(), Timestamp { nanos: 0 }, 20).unwrap();
    stake(&mut state, &addr("c"), 10).unwrap();
    receive(&mut state, &"source".to_string(), Timestamp { nanos: 0 }, 23).unwrap();
    // every operation has turned the queue already
    assert_eq!(state.ledger_entry_seq_no(), 2);
    let before = (kept(&state, "a").seq_no, kept(&state, "b").seq_no);
    assert!(before.0 <= 1 && before.1 <= 1);

    amortize(&mut state).unwrap();
    amortize(&mut state).unwrap();
    assert_eq!(kept(&state, "a").seq_no, 1);
    assert_eq!(kept(&state, "b").seq_no, 1);
    assert_eq!(kept(&state, "a").liquidity, 110);
    assert_eq!(kept(&state, "c").seq_no, 1);
    assert_eq!(state.ledger_entry(0), None);
    assert_eq!(state.ledger_entry(1).unwrap().ref_count, 3);
    assert_eq!(state.memoization_queue_len(), 3);
    assert!(house::validation::is_valid(&state));
}

#[test]
fn unbonding_account_leaves_the_queue() {
    let mut state = pool_with(0, 1_000_000);
    stake(&mut state, &addr("a"), 100).unwrap();
    stake(&mut state, &addr("b"), 100).unwrap();
    unstake(&mut state, &addr("a"), at(5)).unwrap();
    for _ in 0..3 {
        amortize(&mut state).unwrap();
    }
    assert_eq!(state.memoization_queue_len(), 1);
    assert_eq!(state.memoization_queue_at(0), "b");
}

#[test]
fn upsert_adds_to_the_open_entry_or_makes_a_new_one() {
    let mut state = pool_with(0, 1_000_000);
    let first = upsert_ledger_entry(&mut state, 1, 2, 3).unwrap();
    assert_eq!(first.ref_count, 0);
    assert_eq!(first.tag, 0);
    assert_eq!(state.ledger_entry_seq_no(), 1);
    let second = upsert_ledger_entry(&mut state, 10, 20, 30).unwrap();
    assert_eq!((second.delta_revenue, second.delta_dividends, second.delta_loss), (11, 22, 33));
    assert_eq!(state.ledger_entry_seq_no(), 1);
    assert_eq!(state.ledger_entry(0), Some(second));

    stake(&mut state, &addr("a"), 5).unwrap();
    let third = upsert_ledger_entry(&mut state, 7, 0, 0).unwrap();
    assert_eq!(third.ref_count, 1);
    assert_eq!(third.tag, 1);
    assert_eq!(third.liquidity, 5);
    assert_eq!(state.ledger_entry_seq_no(), 2);
    assert_eq!(state.n_ledger_entries(), 2);
    assert_eq!(
        upsert_ledger_entry(&mut state, u128::MAX, 0, 0),
        Err(ContractError::Overflow)
    );
    assert_eq!(state.ledger_entry(1), Some(third));
}

#[test]
fn timestamp_counts_whole_seconds() {
    assert_eq!(Timestamp { nanos: 1_999_999_999 }.seconds(), 1);
    assert_eq!(Timestamp { nanos: 999_999_999 }.seconds(), 0);
    assert_eq!(at(61).seconds(), 61);
}

#[test]
fn error_is_named_after_its_kind() {
    assert_eq!(ContractError::NotAuthorized.message(), "NotAuthorized");
    assert_eq!(ContractError::StillUnbonding.message(), "StillUnbonding");
    assert_eq!(ContractError::InvariantViolation.message(), "InvariantViolation");
    assert_eq!(ContractError::Overflow.message(), "Overflow");
}

#[test]
fn pool_of_a_token_starts_with_nothing() {
    let token = Token::Cw20 { address: addr("token") };
    let made = house::models::Pool::new(&token);
    assert_eq!(made.token, token);
    assert_eq!(token.duplicate(), token);
    assert_eq!((made.delegation, made.liquidity, made.dividends, made.taxes), (0, 0, 0, 0));
}
