use house::error::ContractError;
use house::execute::client::connect;
use house::funds::{ensure_has_funds, ensure_paid, Coin};
use house::order::address_precedes;
use house::execute::credit::{deposit, withdraw};
use house::execute::pool::{claim, stake, unstake};
use house::execute::process::process;
use house::execute::receive::receive;
use house::execute::taxes::{insert_tax_recipients, pay_taxes, set_taxes};
use house::migrations::{migrate, prune};
use house::models::{
    AccountTokenAmount, BankAccount, BlockInfo, ClientInitArgs, Config, Owner, RateLimitConfig,
    StakeAccount, TaxRecipient, Timestamp, Token,
};
use house::msg::{ClientView, Metadata, MigrateMsg, Totals};
use house::query::{account_view, accounts, metadata, totals};
use house::state::{initialize, load_bank_account, upsert_ledger_entry, State};
use house::validation::is_valid;

const SECOND: u64 = 1_000_000_000;

fn config() -> Config {
    Config {
        restake_rate: 1_000_000,
        tax_rate: 100_000,
        unbonding_seconds: 60,
        account_rate_limit: RateLimitConfig { interval_seconds: 3600, max_pct_change: 1_000_000 },
        default_client_rate_limit: RateLimitConfig {
            interval_seconds: 3600,
            max_pct_change: 1_000_000,
        },
    }
}

fn addr(name: &str) -> String {
    name.to_string()
}

fn at(seconds: u64) -> Timestamp {
    Timestamp { nanos: seconds * SECOND }
}

fn pool() -> State {
    State::new(Owner::Address(addr("owner")), Token::Native { denom: addr("ujuno") }, config())
        .unwrap()
}

fn recipient(address: Option<&str>, pct: u128) -> TaxRecipient {
    TaxRecipient {
        address: address.map(addr),
        pct,
        name: Some(addr("n")),
        description: None,
        url: None,
    }
}

#[test]
fn initialize_gives_the_pool_to_the_sender_by_default() {
    let state = initialize(
        addr("deployer"),
        None,
        &Some(vec![recipient(Some("t1"), 500_000), recipient(None, 1), recipient(Some("t2"), 3)]),
        Token::Native { denom: addr("ujuno") },
        config(),
    )
    .unwrap();
    assert_eq!(state.owner(), &Owner::Address(addr("deployer")));
    assert_eq!(state.tax_recipients_len(), 2);
    assert_eq!(state.tax_recipient_address_at(1), "t2");
    assert_eq!(state.tax_recipient_at(1), &recipient(None, 3));
    assert_eq!(state.config(), config());
    assert!(is_valid(&state));

    let state = initialize(
        addr("deployer"),
        Some(Owner::Acl(addr("acl"))),
        &None,
        Token::Native { denom: addr("ujuno") },
        config(),
    )
    .unwrap();
    assert_eq!(state.owner(), &Owner::Acl(addr("acl")));
    assert_eq!(state.tax_recipients_len(), 0);

    let failed = initialize(
        addr("deployer"),
        None,
        &Some(vec![recipient(Some("t1"), 1_000_001)]),
        Token::Native { denom: addr("ujuno") },
        config(),
    );
    assert!(matches!(failed, Err(ContractError::ValidationError)));
}

#[test]
fn taxes_are_paid_out_in_turn_and_the_rest_goes_to_liquidity() {
    let mut state = pool();
    stake(&mut state, &addr("a"), 100).unwrap();
    receive(&mut state, &"source".to_string(), Timestamp { nanos: 0 }, 1_000).unwrap();
    assert_eq!(state.pool().taxes, 100);
    assert_eq!(state.pool().liquidity, 1_000);
    assert_eq!(
        set_taxes(&mut state, &addr("x"), false, &vec![recipient(Some("t1"), 1)]),
        Err(ContractError::NotAuthorized)
    );
    assert_eq!(
        set_taxes(&mut state, &addr("owner"), false, &vec![recipient(Some("t1"), 1_000_001)]),
        Err(ContractError::ValidationError)
    );
    set_taxes(
        &mut state,
        &addr("owner"),
        false,
        &vec![recipient(Some("t1"), 500_000), recipient(Some("t2"), 500_000)],
    )
    .unwrap();
    insert_tax_recipients(&mut state, &vec![recipient(Some("t3"), 333_333)]).unwrap();
    assert_eq!(state.tax_recipients_len(), 3);

    assert_eq!(pay_taxes(&mut state, &addr("x"), false), Err(ContractError::NotAuthorized));
    let paid = pay_taxes(&mut state, &addr("owner"), false).unwrap();
    // 50 of 100, 25 of 50, 8 of 25 (8.33), 17 left
    assert_eq!(
        paid,
        vec![
            AccountTokenAmount { address: addr("t1"), amount: 50 },
            AccountTokenAmount { address: addr("t2"), amount: 25 },
            AccountTokenAmount { address: addr("t3"), amount: 8 },
        ]
    );
    assert_eq!(state.pool().taxes, 0);
    assert_eq!(state.pool().liquidity, 1_017);

    set_taxes(&mut state, &addr("owner"), false, &vec![recipient(Some("t9"), 7)]).unwrap();
    assert_eq!(state.tax_recipients_len(), 1);
    assert_eq!(state.tax_recipient_address_at(0), "t9");
}

#[test]
fn balances_are_only_for_those_who_keep_one() {
    let mut state = pool();
    assert_eq!(deposit(&mut state, &addr("a"), 5), Err(ContractError::NotAuthorized));
    assert_eq!(deposit(&mut state, &addr("a"), 0), Err(ContractError::NotAuthorized));
    assert_eq!(withdraw(&mut state, &addr("a"), None), Err(ContractError::NotAuthorized));
    assert_eq!(load_bank_account(&state, &addr("a")), Err(ContractError::BankAccountNotFound));

    let mut parts = state.into_parts();
    parts.bank_accounts.push(addr("a"), 10);
    let mut state = State::from_parts(parts).unwrap();
    deposit(&mut state, &addr("a"), 5).unwrap();
    assert_eq!(
        load_bank_account(&state, &addr("a")),
        Ok(BankAccount { address: None, balance: 15 })
    );
    assert_eq!(withdraw(&mut state, &addr("a"), Some(16)), Err(ContractError::NotAuthorized));
    withdraw(&mut state, &addr("a"), Some(6)).unwrap();
    assert_eq!(load_bank_account(&state, &addr("a")).unwrap().balance, 9);
    withdraw(&mut state, &addr("a"), None).unwrap();
    assert_eq!(load_bank_account(&state, &addr("a")).unwrap().balance, 0);
    assert_eq!(deposit(&mut state, &addr("a"), u128::MAX), Ok(()));
    assert_eq!(deposit(&mut state, &addr("a"), 1), Err(ContractError::Overflow));
}

#[test]
fn state_survives_being_taken_apart() {
    let mut state = pool();
    stake(&mut state, &addr("a"), 100).unwrap();
    stake(&mut state, &addr("b"), 50).unwrap();
    receive(&mut state, &"source".to_string(), Timestamp { nanos: 0 }, 30).unwrap();
    unstake(&mut state, &addr("b"), at(9)).unwrap();
    receive(&mut state, &"source".to_string(), Timestamp { nanos: 0 }, 30).unwrap();

    // the first entry has left the ledger with the replay in passing
    let parts = state.into_parts();
    assert_eq!(parts.stake_accounts.len(), 2);
    assert_eq!(parts.ledger.len(), 1);
    assert_eq!(parts.ledger[&1].ref_count, 1);
    assert_eq!(parts.ledger_entry_seq_no, 2);
    assert_eq!(parts.n_stake_accounts_unbonding, 1);
    assert_eq!(parts.memoization_queue.len(), 1);
    let mut state = State::from_parts(parts).unwrap();
    assert_eq!(claim(&mut state, &addr("a")), Ok(0));
    assert_eq!(state.stake_account(&addr("a")).unwrap().liquidity, 100 + 18 + 27);
    assert_eq!(state.n_ledger_entries(), 0);
}

#[test]
fn parts_that_contradict_each_other_make_no_state() {
    let mut state = pool();
    stake(&mut state, &addr("a"), 100).unwrap();
    stake(&mut state, &addr("b"), 50).unwrap();
    receive(&mut state, &"source".to_string(), Timestamp { nanos: 0 }, 30).unwrap();

    let mut parts = state.into_parts();
    parts.ledger.get_mut(&0).unwrap().ref_count = 1;
    assert!(matches!(State::from_parts(parts), Err(ContractError::InvariantViolation)));

    let mut state = pool();
    stake(&mut state, &addr("a"), 100).unwrap();
    receive(&mut state, &"source".to_string(), Timestamp { nanos: 0 }, 30).unwrap();
    let mut parts = state.into_parts();
    parts.ledger.remove(&0);
    parts.n_ledger_entries = 0;
    assert!(matches!(State::from_parts(parts), Err(ContractError::InvariantViolation)));

    let mut parts = pool().into_parts();
    parts.pool.delegation = 1;
    assert!(matches!(State::from_parts(parts), Err(ContractError::InvariantViolation)));

    let mut parts = pool().into_parts();
    parts.n_stake_accounts = 1;
    assert!(matches!(State::from_parts(parts), Err(ContractError::InvariantViolation)));

    let mut parts = pool().into_parts();
    parts.config.tax_rate = 1_000_001;
    assert!(matches!(State::from_parts(parts), Err(ContractError::InvariantViolation)));

    let mut parts = pool().into_parts();
    parts.stake_accounts.push(house::state::StakeEntry {
        address: addr("a"),
        account: StakeAccount::new(0, 1),
    });
    parts.n_stake_accounts = 1;
    assert!(matches!(State::from_parts(parts), Err(ContractError::InvariantViolation)));
}

#[test]
fn accounts_are_listed_in_pages_and_up_to_date() {
    let mut state = pool();
    for (name, amount) in [("a", 100u128), ("b", 200), ("c", 300), ("d", 400)] {
        stake(&mut state, &addr(name), amount).unwrap();
    }
    receive(&mut state, &"source".to_string(), Timestamp { nanos: 0 }, 1_000).unwrap();
    unstake(&mut state, &addr("c"), at(5)).unwrap();

    let all = accounts(&state, &None, None).unwrap();
    assert_eq!(all.len(), 4);
    assert_eq!(all[0].address, "a");
    // 900 after tax, 90 of it for a tenth of the pool
    assert_eq!(all[0].account.liquidity, 190);
    assert_eq!(all[0].account.seq_no, 1);
    assert_eq!(all[2].address, "c");
    assert_eq!(all[2].account.unbonding.unwrap().amount, 570);
    assert_eq!(all[3].account.liquidity, 760);

    let page = accounts(&state, &Some(addr("a")), Some(2)).unwrap();
    assert_eq!(page.len(), 2);
    assert_eq!(page[0].address, "b");
    assert_eq!(page[1].address, "c");
    assert_eq!(accounts(&state, &Some(addr("d")), Some(2)).unwrap().len(), 0);
    assert_eq!(accounts(&state, &Some(addr("nobody")), None).unwrap().len(), 0);
    assert_eq!(accounts(&state, &None, Some(0)).unwrap().len(), 0);
    // the state itself is as it was
    assert_eq!(state.stake_account(&addr("a")).unwrap().liquidity, 100);
}

#[test]
fn counters_and_totals_are_reported() {
    let mut state = pool();
    stake(&mut state, &addr("a"), 1_000).unwrap();
    stake(&mut state, &addr("b"), 1_000).unwrap();
    unstake(&mut state, &addr("b"), at(5)).unwrap();
    receive(&mut state, &"source".to_string(), Timestamp { nanos: 0 }, 50).unwrap();
    for name in ["g1", "g2"] {
        connect(
            &mut state,
            at(1),
            &addr("owner"),
            false,
            ClientInitArgs {
                address: Some(addr(name)),
                name: None,
                description: None,
                url: None,
                budget: Some(1_000),
                rate_limit: None,
            },
        )
        .unwrap();
    }
    let block = BlockInfo { height: 3, time: at(9) };
    let coming = |n: u128| Some(AccountTokenAmount { address: addr("p"), amount: n });
    process(&mut state, &block, &addr("g1"), &addr("p"), &coming(70), &None).unwrap();
    process(&mut state, &block, &addr("g2"), &addr("p"), &coming(5), &coming(25)).unwrap();
    process(&mut state, &block, &addr("g2"), &addr("p"), &coming(8), &None).unwrap();

    assert_eq!(
        metadata(&state),
        Metadata {
            n_accounts: 2,
            n_unbonding: 1,
            n_clients: 2,
            n_ledger_entries: 1,
            ledger_entry_seq_no: 1,
        }
    );
    assert_eq!(totals(&state), Ok(Totals { revenue: 50 + 70 + 8, expense: 20 }));

    let view = account_view(&state, &block, &addr("a"));
    // 45 + 63 + 8 (7.2 of the 8 go to tax: 0; 8 * 900000 / 1000000 = 7) - 20
    assert_eq!(view.stake.unwrap().liquidity, 1_000 + 45 + 63 + 8 - 20);
    assert_eq!(view.bank, None);
    assert_eq!(view.client, None);
    assert!(!view.is_suspended);
    let view = account_view(&state, &block, &addr("g1"));
    assert_eq!(view.stake, None);
    assert_eq!(view.client.unwrap().revenue, 70);
    let view = account_view(&state, &BlockInfo { height: 3, time: at(10) }, &addr("nobody"));
    assert_eq!(view.stake, None);
    assert_eq!(view.client, None);

    let shown = ClientView::new(&state.client_at(1).clone(), &addr("g2"), 3);
    assert_eq!(shown.address, "g2");
    assert_eq!(shown.executions, 3);
    assert_eq!(shown.expense, 20);
}

#[test]
fn migration_drops_the_entries_that_are_owed_to_nobody() {
    let mut state = pool();
    upsert_ledger_entry(&mut state, 5, 0, 0).unwrap();
    stake(&mut state, &addr("a"), 100).unwrap();
    receive(&mut state, &"source".to_string(), Timestamp { nanos: 0 }, 1_000).unwrap();
    assert_eq!(state.n_ledger_entries(), 2);
    assert_eq!(state.ledger_entry(0).unwrap().ref_count, 0);

    migrate(&mut state, MigrateMsg::NoOp {}).unwrap();
    assert_eq!(state.n_ledger_entries(), 2);
    migrate(&mut state, MigrateMsg::V0_0_4 {}).unwrap();
    assert_eq!(state.n_ledger_entries(), 1);
    assert_eq!(state.ledger_entry(0), None);
    assert_eq!(state.ledger_entry(1).unwrap().ref_count, 1);
    assert_eq!(state.ledger_entry_seq_no(), 2);
    prune(&mut state);
    assert_eq!(state.n_ledger_entries(), 1);
    assert!(is_valid(&state));
    assert_eq!(claim(&mut state, &addr("a")), Ok(0));
    assert_eq!(state.stake_account(&addr("a")).unwrap().liquidity, 1_000);
}

#[test]
fn accounts_are_listed_by_rising_address_whatever_the_order_of_staking() {
    let mut state = pool();
    for name in ["b", "a", "d", "ab", "c"] {
        stake(&mut state, &addr(name), 10).unwrap();
    }
    let names = |page: Vec<house::state::StakeEntry>| -> Vec<String> {
        page.into_iter().map(|entry| entry.address).collect()
    };
    assert_eq!(names(accounts(&state, &None, None).unwrap()), ["a", "ab", "b", "c", "d"]);
    assert_eq!(names(accounts(&state, &None, Some(2)).unwrap()), ["a", "ab"]);
    assert_eq!(names(accounts(&state, &Some(addr("ab")), Some(2)).unwrap()), ["b", "c"]);
    // a cursor need not be the address of an account
    assert_eq!(names(accounts(&state, &Some(addr("aa")), None).unwrap()), ["ab", "b", "c", "d"]);
    assert_eq!(names(accounts(&state, &Some(addr("")), Some(1)).unwrap()), ["a"]);
    assert_eq!(names(accounts(&state, &Some(addr("d")), None).unwrap()).len(), 0);
    assert_eq!(names(accounts(&state, &Some(addr("zz")), None).unwrap()).len(), 0);
}

#[test]
fn addresses_are_ordered_by_their_bytes() {
    assert!(address_precedes(&addr("a"), &addr("b")));
    assert!(address_precedes(&addr("a"), &addr("ab")));
    assert!(address_precedes(&addr(""), &addr("a")));
    assert!(address_precedes(&addr("B"), &addr("a")));
    assert!(address_precedes(&addr("juno1z"), &addr("juno2a")));
    assert!(address_precedes(&addr("z"), &addr("\u{e9}")));
    assert!(!address_precedes(&addr("b"), &addr("a")));
    assert!(!address_precedes(&addr("a"), &addr("a")));
    assert!(!address_precedes(&addr("ab"), &addr("a")));
    assert!(!address_precedes(&addr(""), &addr("")));
}

#[test]
fn taxes_are_paid_by_rising_address_whatever_the_order_of_setting() {
    let mut state = pool();
    stake(&mut state, &addr("a"), 100).unwrap();
    receive(&mut state, &addr("source"), at(1), 1_000).unwrap();
    set_taxes(
        &mut state,
        &addr("owner"),
        false,
        &vec![recipient(Some("t3"), 333_333), recipient(Some("t1"), 500_000), recipient(Some("t2"), 500_000)],
    )
    .unwrap();
    let listed: Vec<String> = house::query::tax_recipients(&state)
        .into_iter()
        .map(|r| r.address.unwrap())
        .collect();
    assert_eq!(listed, ["t1", "t2", "t3"]);
    let paid = pay_taxes(&mut state, &addr("owner"), false).unwrap();
    assert_eq!(
        paid,
        vec![
            AccountTokenAmount { address: addr("t1"), amount: 50 },
            AccountTokenAmount { address: addr("t2"), amount: 25 },
            AccountTokenAmount { address: addr("t3"), amount: 8 },
        ]
    );
    assert_eq!(state.pool().liquidity, 1_017);
}

#[test]
fn clients_are_listed_by_rising_address() {
    let mut state = pool();
    for name in ["g2", "g10", "g1"] {
        connect(
            &mut state,
            at(1),
            &addr("owner"),
            false,
            ClientInitArgs {
                address: Some(addr(name)),
                name: None,
                description: None,
                url: None,
                budget: None,
                rate_limit: None,
            },
        )
        .unwrap();
    }
    let listed: Vec<String> =
        house::query::clients(&state).into_iter().map(|c| c.address).collect();
    assert_eq!(listed, ["g1", "g10", "g2"]);
}

#[test]
fn funds_must_hold_a_coin_that_covers_the_amount() {
    let coin = |denom: &str, amount: u128| Coin { denom: addr(denom), amount };
    let funds = vec![coin("uatom", 50), coin("ujuno", 7), coin("ujuno", 9)];
    assert_eq!(ensure_has_funds(&funds, &addr("ujuno"), 7), Ok(()));
    assert_eq!(ensure_has_funds(&funds, &addr("ujuno"), 9), Ok(()));
    assert_eq!(ensure_has_funds(&funds, &addr("ujuno"), 0), Ok(()));
    assert_eq!(
        ensure_has_funds(&funds, &addr("ujuno"), 10),
        Err(ContractError::InsufficientFunds)
    );
    assert_eq!(
        ensure_has_funds(&funds, &addr("uosmo"), 0),
        Err(ContractError::InsufficientFunds)
    );
    assert_eq!(ensure_has_funds(&vec![], &addr("ujuno"), 1), Err(ContractError::InsufficientFunds));
    assert_eq!(ContractError::InsufficientFunds.message(), "InsufficientFunds");

    assert_eq!(ensure_paid(&Token::Native { denom: addr("ujuno") }, &funds, 9), Ok(None));
    assert_eq!(
        ensure_paid(&Token::Native { denom: addr("ujuno") }, &funds, 10),
        Err(ContractError::InsufficientFunds)
    );
    assert_eq!(
        ensure_paid(&Token::Cw20 { address: addr("token") }, &vec![], 10),
        Ok(Some(addr("token")))
    );
}

#[test]
fn plain_revenue_is_booked_to_the_stream_of_its_sender() {
    let mut state = pool();
    stake(&mut state, &addr("a"), 100).unwrap();
    receive(&mut state, &addr("s1"), at(3), 40).unwrap();
    receive(&mut state, &addr("s2"), at(4), 5).unwrap();
    receive(&mut state, &addr("s1"), at(9), 2).unwrap();
    let first = state.stream(&addr("s1")).unwrap();
    assert_eq!(first.created_at, at(3));
    assert_eq!(first.name, None);
    assert_eq!(first.execution_count, 2);
    assert_eq!(first.revenue, 42);
    assert_eq!(state.stream(&addr("s2")).unwrap().revenue, 5);
    assert_eq!(state.stream(&addr("a")), None);
    assert_eq!(state.streams_len(), 2);
    assert_eq!(state.total_stream_revenue(), 47);
    assert_eq!(
        receive(&mut state, &addr("s3"), at(9), 0),
        Err(ContractError::InsufficientAmount)
    );
    assert_eq!(state.streams_len(), 2);

    // the second migration sets the total to what the streams hold
    let mut parts = state.into_parts();
    parts.total_stream_revenue = 1;
    let mut state = State::from_parts(parts).unwrap();
    migrate(&mut state, MigrateMsg::V0_0_5 {}).unwrap();
    assert_eq!(state.total_stream_revenue(), 47);
}
