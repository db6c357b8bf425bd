use staking_pool::{
    Action, Command, Contract, DepositLimiters, Funds, PoolError, PoolInfo, PoolType, TokenInfo,
    TokenMetadata, TransactionType, UserInfo, INTEREST_DIVISOR, ONE_DAY, QUARTER_DAY,
};

const OWNER: &str = "pool.near";
const TOKEN: &str = "usdc.near";
const CLAIM: &str = "cusdc.near";
const ALICE: &str = "alice.near";
const BOB: &str = "bob.near";

fn s(x: &str) -> String {
    x.to_string()
}

fn limits(start: u64, end: u64, duration: u64, limit: u128, capacity: u128, max_util: u128) -> DepositLimiters {
    DepositLimiters {
        duration,
        start_time: start,
        end_time: end,
        limit_per_user: limit,
        capacity,
        max_utilisation: max_util,
    }
}

fn pool(pool_type: PoolType, apy: u128, quarterly: bool, lim: DepositLimiters) -> PoolInfo {
    PoolInfo {
        pool_name: s("pool"),
        pool_type,
        apy,
        paused: false,
        quarterly_payout: quarterly,
        unique_users: 7,
        token_info: TokenInfo {
            token: s(TOKEN),
            collateral_token: s(CLAIM),
            decimals: 6,
            name: s("USD Coin"),
            symbol: s("USDC"),
        },
        funds: Funds { balance: 99, loaned_balance: 9 },
        deposit_limiters: lim,
    }
}

fn staking_contract() -> Contract {
    let mut c = Contract::new(s(OWNER));
    c.create_pool(&s(OWNER), pool(PoolType::Staking, 1000, false, limits(0, 1000, 500, 100, 1000, 80)), PoolType::Staking)
        .unwrap();
    c
}

fn loan_contract(max_util: u128) -> Contract {
    let mut c = Contract::new(s(OWNER));
    c.create_pool(&s(OWNER), pool(PoolType::Loan, 1000, false, limits(0, 0, 0, 10_000, 10_000, max_util)), PoolType::Loan)
        .unwrap();
    c.ft_on_transfer(0, &s(TOKEN), &s(ALICE), 1000, "staking:0").unwrap();
    c.whitelist(&s(OWNER), 0, s(BOB), true).unwrap();
    c
}

fn stakes(c: &Contract, user: &str) -> Vec<UserInfo> {
    let n = c.total_stakes_of_user(0, &s(user)).unwrap();
    c.get_user_stakes(0, &s(user), 0, n as u128).unwrap()
}

fn is_transfer(a: &Action, receiver: &str, amount: u128) -> bool {
    match a {
        Action::Transfer { token, receiver: r, amount: m } => token == TOKEN && r == receiver && *m == amount,
        _ => false,
    }
}

fn is_burn(a: &Action, account: &str, amount: u128) -> bool {
    match a {
        Action::Burn { token, account: r, amount: m } => token == CLAIM && r == account && *m == amount,
        _ => false,
    }
}

#[test]
fn scenario_staking_deposit_then_withdraw_after_lock() {
    let mut c = staking_contract();
    let acts = c.internal_deposit_and_stake(0, s(ALICE), 0, s(TOKEN), 50).unwrap();
    assert_eq!(acts.len(), 1);
    assert!(matches!(&acts[0], Action::Mint { token, account, amount: 50 } if token == CLAIM && account == ALICE));
    let st = stakes(&c, ALICE);
    assert_eq!(st.len(), 1);
    assert_eq!(st[0].amount, 50);
    assert_eq!(st[0].paid_out, 0);
    assert_eq!(st[0].transaction_type, TransactionType::Staking);
    let p = c.pool_info(0).unwrap();
    assert_eq!(p.funds.balance, 50);
    assert_eq!(p.unique_users, 1);

    let expected = 50u128 * 1000 * 100 * 500 / (100 * 100 * 365 * 86_400_000);
    assert_eq!(c.calculate_interest(1500, &s(ALICE), 0, 0, 50).unwrap(), expected);

    let acts = c.withdraw(1500, &s(ALICE), 0, 0, 50).unwrap();
    assert_eq!(acts.len(), 3);
    assert!(is_transfer(&acts[0], ALICE, expected));
    assert!(is_burn(&acts[1], ALICE, 50));
    assert!(is_transfer(&acts[2], ALICE, 50));
    assert_eq!(c.total_stakes_of_user(0, &s(ALICE)).unwrap(), 0);
    let p = c.pool_info(0).unwrap();
    assert_eq!(p.funds.balance, 0);
    assert_eq!(p.unique_users, 0);
}

#[test]
fn scenario_withdraw_before_end_is_emergency() {
    let mut c = staking_contract();
    c.internal_deposit_and_stake(0, s(ALICE), 0, s(TOKEN), 50).unwrap();
    let acts = c.withdraw(500, &s(ALICE), 0, 0, 50).unwrap();
    assert_eq!(acts.len(), 2);
    assert!(is_burn(&acts[0], ALICE, 50));
    assert!(is_transfer(&acts[1], ALICE, 50));
    // The emptied position is removed and the account leaves the pool.
    assert_eq!(c.total_stakes_of_user(0, &s(ALICE)).unwrap(), 0);
    let p = c.pool_info(0).unwrap();
    assert_eq!(p.unique_users, 0);
    // The emergency path leaves the pool's balance as it was.
    assert_eq!(p.funds.balance, 50);
}

#[test]
fn partial_emergency_withdraw_updates_position() {
    let mut c = staking_contract();
    c.internal_deposit_and_stake(0, s(ALICE), 0, s(TOKEN), 50).unwrap();
    let acts = c.emergency_withdraw(500, &s(ALICE), 0, 0, 20).unwrap();
    assert!(is_burn(&acts[0], ALICE, 20));
    assert!(is_transfer(&acts[1], ALICE, 20));
    let st = stakes(&c, ALICE);
    assert_eq!(st.len(), 1);
    assert_eq!(st[0].amount, 30);
    assert_eq!(st[0].time, 500);
    assert_eq!(st[0].paid_out, 0);
    assert_eq!(c.pool_info(0).unwrap().unique_users, 1);
}

#[test]
fn staking_reward_stops_after_reward_window() {
    let mut c = Contract::new(s(OWNER));
    let year: u64 = 365 * 86_400_000;
    let lim = limits(0, 1000, year, 10_000_000, 10_000_000, 80);
    c.create_pool(&s(OWNER), pool(PoolType::Staking, 1000, false, lim), PoolType::Staking).unwrap();
    c.internal_deposit_and_stake(0, s(ALICE), 0, s(TOKEN), 1_000_000).unwrap();
    let now = 1000 + 3 * year;
    // The view counts the whole time since the window ended...
    assert_eq!(c.calculate_interest(now, &s(ALICE), 0, 0, 1_000_000), Ok(30_000_000));
    // ...settlement counts one reward window at most.
    assert_eq!(c.reward_for(now, &s(ALICE), 0, 0, now - 1000, 1_000_000), Ok(10_000_000));
    let acts = c.withdraw(now, &s(ALICE), 0, 0, 1_000_000).unwrap();
    assert!(is_transfer(&acts[0], ALICE, 10_000_000));
}

#[test]
fn pool_configuration_limits() {
    let mut c = Contract::new(s(OWNER));
    assert_eq!(
        c.create_pool(&s(OWNER), pool(PoolType::Loan, 1, false, limits(0, 0, 0, 1, 1, 101)), PoolType::Loan),
        Err(PoolError::UtilisationOutOfScale)
    );
    // A pool configured as staking needs a deposit window, whatever type is declared.
    assert_eq!(
        c.create_pool(&s(OWNER), pool(PoolType::Staking, 1, false, limits(10, 10, 0, 1, 1, 80)), PoolType::Loan),
        Err(PoolError::EndBeforeStart)
    );
    assert_eq!(c.total_pools(), 0);
    let mut l = loan_contract(80);
    assert_eq!(
        l.edit_pool(&s(OWNER), 0, pool(PoolType::Loan, 1, false, limits(0, 0, 0, 10_000, 10_000, 150))),
        Err(PoolError::UtilisationOutOfScale)
    );
    l.borrow(10, &s(BOB), 0, 100).unwrap();
    assert_eq!(
        l.edit_pool(&s(OWNER), 0, pool(PoolType::Staking, 1, false, limits(0, 10, 0, 10_000, 10_000, 80))),
        Err(PoolError::LoansOutstanding)
    );
    assert_eq!(l.pool_info(0).unwrap().pool_type, PoolType::Loan);
}

#[test]
fn scenario_borrow_under_and_over_ceiling() {
    let mut c = loan_contract(80);
    let acts = c.borrow(10, &s(BOB), 0, 700).unwrap();
    assert_eq!(acts.len(), 1);
    assert!(is_transfer(&acts[0], BOB, 700));
    assert_eq!(c.pool_info(0).unwrap().funds.loaned_balance, 700);
    assert_eq!(c.get_pool_utilisation(0).unwrap(), 70);
    assert_eq!(c.borrow(20, &s(BOB), 0, 200).unwrap_err(), PoolError::UtilisationMaxedOut);
    assert_eq!(c.pool_info(0).unwrap().funds.loaned_balance, 700);
    assert_eq!(c.pool_info(0).unwrap().unique_users, 2);
}

#[test]
fn scenario_transfer_messages_route() {
    let mut c = loan_contract(80);
    assert_eq!(c.pool_info(0).unwrap().funds.balance, 1000);
    c.borrow(10, &s(BOB), 0, 100).unwrap();
    let (code, acts) = c.ft_on_transfer(10, &s(TOKEN), &s(ALICE), 5, "staking:0").unwrap();
    assert_eq!(code, 1);
    assert_eq!(acts.len(), 1);
    let (code, acts) = c.ft_on_transfer(10, &s(TOKEN), &s(BOB), 50, "borrow:0:0:50").unwrap();
    assert_eq!(code, 2);
    assert!(acts.is_empty());
    let st = stakes(&c, BOB);
    assert_eq!(st[0].amount, 50);
    assert_eq!(c.pool_info(0).unwrap().funds.loaned_balance, 50);
    assert_eq!(
        c.ft_on_transfer(10, &s(TOKEN), &s(BOB), 50, "swap:0").unwrap_err(),
        PoolError::WrongMessageFormat
    );
}

#[test]
fn scenario_create_rejects_reversed_window() {
    let mut c = Contract::new(s(OWNER));
    let r = c.create_pool(&s(OWNER), pool(PoolType::Staking, 1, false, limits(1000, 1000, 0, 1, 1, 1)), PoolType::Staking);
    assert_eq!(r, Err(PoolError::EndBeforeStart));
    assert_eq!(c.total_pools(), 0);
    let r = c.create_pool(&s(OWNER), pool(PoolType::Staking, 1, false, limits(2000, 1000, 0, 1, 1, 1)), PoolType::Staking);
    assert_eq!(r, Err(PoolError::EndBeforeStart));
    assert_eq!(c.total_pools(), 0);
    // A loan pool has no deposit window to check.
    c.create_pool(&s(OWNER), pool(PoolType::Loan, 1, false, limits(2000, 1000, 0, 1, 1, 1)), PoolType::Loan).unwrap();
    assert_eq!(c.total_pools(), 1);
}

#[test]
fn create_pool_resets_counters() {
    let c = staking_contract();
    let p = c.pool_info(0).unwrap();
    assert_eq!(p.funds, Funds { balance: 0, loaned_balance: 0 });
    assert_eq!(p.unique_users, 0);
    assert_eq!(p.apy, 1000);
}

#[test]
fn admin_operations_need_owner() {
    let mut c = staking_contract();
    assert_eq!(c.set_pool_paused(&s(ALICE), 0, true), Err(PoolError::CallerNotAllowed));
    assert_eq!(
        c.create_pool(&s(ALICE), pool(PoolType::Loan, 1, false, limits(0, 1, 0, 1, 1, 1)), PoolType::Loan),
        Err(PoolError::CallerNotAllowed)
    );
    assert_eq!(c.recover_token(&s(ALICE), s(TOKEN), 5).unwrap_err(), PoolError::CallerNotAllowed);
    let acts = c.recover_token(&s(OWNER), s(TOKEN), 5).unwrap();
    assert!(is_transfer(&acts[0], OWNER, 5));
    assert_eq!(c.set_pool_paused(&s(OWNER), 3, true), Err(PoolError::UnknownPool));
}

#[test]
fn paused_pool_rejects_deposits() {
    let mut c = staking_contract();
    c.set_pool_paused(&s(OWNER), 0, true).unwrap();
    assert!(c.pool_info(0).unwrap().paused);
    assert_eq!(c.internal_deposit_and_stake(0, s(ALICE), 0, s(TOKEN), 5).unwrap_err(), PoolError::PoolPaused);
    c.set_pool_paused(&s(OWNER), 0, false).unwrap();
    assert!(c.internal_deposit_and_stake(0, s(ALICE), 0, s(TOKEN), 5).is_ok());
}

#[test]
fn deposit_admission_errors() {
    let mut c = staking_contract();
    assert_eq!(c.internal_deposit_and_stake(0, s(ALICE), 1, s(TOKEN), 5).unwrap_err(), PoolError::UnknownPool);
    assert_eq!(c.internal_deposit_and_stake(0, s(ALICE), 0, s("other.near"), 5).unwrap_err(), PoolError::InvalidToken);
    assert_eq!(c.internal_deposit_and_stake(1001, s(ALICE), 0, s(TOKEN), 5).unwrap_err(), PoolError::DepositsDisabled);
    assert_eq!(c.internal_deposit_and_stake(0, s(ALICE), 0, s(TOKEN), 101).unwrap_err(), PoolError::ExceedsLimitPerUser);
    for _ in 0..10 {
        c.internal_deposit_and_stake(1000, s(ALICE), 0, s(TOKEN), 100).unwrap();
    }
    assert_eq!(c.internal_deposit_and_stake(0, s(BOB), 0, s(TOKEN), 1).unwrap_err(), PoolError::CapacityReached);
    assert_eq!(c.pool_info(0).unwrap().funds.balance, 1000);
    assert_eq!(c.pool_info(0).unwrap().unique_users, 1);
    assert_eq!(c.total_stakes_of_user(0, &s(ALICE)).unwrap(), 10);
}

#[test]
fn unique_users_counts_distinct_accounts() {
    let mut c = staking_contract();
    c.internal_deposit_and_stake(0, s(ALICE), 0, s(TOKEN), 10).unwrap();
    c.internal_deposit_and_stake(0, s(ALICE), 0, s(TOKEN), 20).unwrap();
    c.internal_deposit_and_stake(0, s(BOB), 0, s(TOKEN), 30).unwrap();
    assert_eq!(c.pool_info(0).unwrap().unique_users, 2);
    c.withdraw(1500, &s(BOB), 0, 0, 30).unwrap();
    assert_eq!(c.pool_info(0).unwrap().unique_users, 1);
    c.withdraw(1500, &s(ALICE), 0, 0, 10).unwrap();
    assert_eq!(c.pool_info(0).unwrap().unique_users, 1);
    c.withdraw(1500, &s(ALICE), 0, 0, 20).unwrap();
    assert_eq!(c.pool_info(0).unwrap().unique_users, 0);
}

#[test]
fn full_withdraw_removes_position_by_swap() {
    let mut c = staking_contract();
    c.internal_deposit_and_stake(0, s(ALICE), 0, s(TOKEN), 10).unwrap();
    c.internal_deposit_and_stake(0, s(ALICE), 0, s(TOKEN), 20).unwrap();
    c.internal_deposit_and_stake(0, s(ALICE), 0, s(TOKEN), 30).unwrap();
    c.withdraw(1500, &s(ALICE), 0, 0, 10).unwrap();
    let st = stakes(&c, ALICE);
    assert_eq!(st.len(), 2);
    assert_eq!(st[0].amount, 30);
    assert_eq!(st[1].amount, 20);
}

#[test]
fn partial_withdraw_keeps_position() {
    let mut c = staking_contract();
    c.internal_deposit_and_stake(0, s(ALICE), 0, s(TOKEN), 40).unwrap();
    c.withdraw(1600, &s(ALICE), 0, 0, 15).unwrap();
    let st = stakes(&c, ALICE);
    assert_eq!(st.len(), 1);
    assert_eq!(st[0].amount, 25);
    assert_eq!(st[0].time, 1600);
    assert_eq!(c.pool_info(0).unwrap().funds.balance, 25);
}

#[test]
fn withdraw_errors() {
    let mut c = staking_contract();
    assert_eq!(c.withdraw(1500, &s(ALICE), 0, 0, 1).unwrap_err(), PoolError::UnknownAccount);
    c.internal_deposit_and_stake(0, s(ALICE), 0, s(TOKEN), 40).unwrap();
    assert_eq!(c.withdraw(1500, &s(ALICE), 0, 1, 1).unwrap_err(), PoolError::UnknownPosition);
    assert_eq!(c.withdraw(1500, &s(ALICE), 0, 0, 41).unwrap_err(), PoolError::AmountGreaterThanTransaction);
    assert_eq!(c.withdraw(1499, &s(ALICE), 0, 0, 1).unwrap_err(), PoolError::WithdrawingTooEarly);
    assert_eq!(c.withdraw(500, &s(ALICE), 0, 0, 41).unwrap_err(), PoolError::Underflow);
    assert_eq!(c.withdraw(1500, &s(ALICE), 2, 0, 1).unwrap_err(), PoolError::UnknownPool);
    assert_eq!(stakes(&c, ALICE)[0].amount, 40);
}

#[test]
fn loan_pool_withdraw_limits() {
    let mut c = loan_contract(80);
    c.borrow(10, &s(BOB), 0, 500).unwrap();
    // 500 on loan out of 1000: taking 600 out would leave less than the loans.
    assert_eq!(c.withdraw(10, &s(ALICE), 0, 0, 600).unwrap_err(), PoolError::HighUtilisation);
    // 500 of 600 is 83 percent, at or over the ceiling.
    assert_eq!(c.withdraw(10, &s(ALICE), 0, 0, 400).unwrap_err(), PoolError::UtilisationMaxedOut);
    // A borrow position is not a deposit.
    assert_eq!(c.withdraw(10, &s(BOB), 0, 0, 1).unwrap_err(), PoolError::NotStaked);
    c.withdraw(10, &s(ALICE), 0, 0, 300).unwrap();
    assert_eq!(c.pool_info(0).unwrap().funds.balance, 700);
}

#[test]
fn borrow_errors() {
    let mut c = loan_contract(80);
    assert_eq!(c.borrow(10, &s("carol.near"), 0, 1).unwrap_err(), PoolError::NotWhitelisted);
    c.whitelist(&s(OWNER), 0, s(BOB), false).unwrap();
    assert_eq!(c.borrow(10, &s(BOB), 0, 1).unwrap_err(), PoolError::NotWhitelisted);
    c.whitelist(&s(OWNER), 0, s(BOB), true).unwrap();
    c.set_pool_paused(&s(OWNER), 0, true).unwrap();
    assert_eq!(c.borrow(10, &s(BOB), 0, 1).unwrap_err(), PoolError::PoolPaused);
    assert_eq!(c.borrow(10, &s(BOB), 0, u128::MAX).unwrap_err(), PoolError::Overflow);
    assert_eq!(c.borrow(10, &s(BOB), 5, 1).unwrap_err(), PoolError::UnknownPool);

    let mut empty = Contract::new(s(OWNER));
    empty.create_pool(&s(OWNER), pool(PoolType::Loan, 1, false, limits(0, 0, 0, 1, 1, 80)), PoolType::Loan).unwrap();
    empty.whitelist(&s(OWNER), 0, s(BOB), true).unwrap();
    assert_eq!(empty.borrow(10, &s(BOB), 0, 1).unwrap_err(), PoolError::NothingDeposited);
}

#[test]
fn whitelist_only_for_loan_pools() {
    let mut c = staking_contract();
    assert_eq!(c.whitelist(&s(OWNER), 0, s(BOB), true), Err(PoolError::NotLoanPool));
    assert_eq!(c.whitelist(&s(ALICE), 0, s(BOB), true), Err(PoolError::CallerNotAllowed));
}

#[test]
fn borrow_from_staking_pool_rejected() {
    let mut c = Contract::new(s(OWNER));
    // Declared a loan pool at creation, configured as staking.
    c.create_pool(&s(OWNER), pool(PoolType::Staking, 1, false, limits(0, 10, 0, 100, 100, 80)), PoolType::Loan).unwrap();
    c.internal_deposit_and_stake(0, s(ALICE), 0, s(TOKEN), 50).unwrap();
    let mut edited = pool(PoolType::Loan, 1, false, limits(0, 10, 0, 100, 100, 80));
    edited.token_info.token = s("ignored.near");
    c.edit_pool(&s(OWNER), 0, edited).unwrap();
    c.whitelist(&s(OWNER), 0, s(BOB), true).unwrap();
    let mut back = pool(PoolType::Staking, 1, false, limits(0, 10, 0, 100, 100, 80));
    back.pool_name = s("renamed");
    c.edit_pool(&s(OWNER), 0, back).unwrap();
    let p = c.pool_info(0).unwrap();
    assert_eq!(p.pool_name, "renamed");
    assert_eq!(p.token_info.token, TOKEN);
    assert_eq!(p.funds.balance, 50);
    assert_eq!(p.unique_users, 1);
    assert_eq!(c.borrow(10, &s(BOB), 0, 1).unwrap_err(), PoolError::NotLoanPool);
}

#[test]
fn repay_with_interest() {
    let mut c = loan_contract(80);
    c.borrow(0, &s(BOB), 0, 500).unwrap();
    c.borrow(0, &s(BOB), 0, 100).unwrap();
    let month: u64 = 365 * 86_400_000 / 12;
    // Utilisation 60 percent, apy 1000: 100 * 1000 * 60 * month / divisor = 50.
    assert_eq!(c.calculate_interest(month, &s(BOB), 0, 1, 100).unwrap(), 50);
    assert_eq!(
        c.ft_on_transfer(month, &s(TOKEN), &s(BOB), 149, "borrow:0:1:100").unwrap_err(),
        PoolError::InsufficientRepayment
    );
    assert_eq!(
        c.ft_on_transfer(month, &s("x.near"), &s(BOB), 150, "borrow:0:1:100").unwrap_err(),
        PoolError::InvalidToken
    );
    let (code, acts) = c.ft_on_transfer(month, &s(TOKEN), &s(BOB), 150, "borrow:0:1:100").unwrap();
    assert_eq!(code, 2);
    assert!(acts.is_empty());
    let st = stakes(&c, BOB);
    assert_eq!(st.len(), 1);
    assert_eq!(st[0].amount, 500);
    // The whole transferred amount comes off the loaned balance.
    assert_eq!(c.pool_info(0).unwrap().funds.loaned_balance, 450);
}

#[test]
fn repay_errors() {
    let mut c = loan_contract(80);
    c.borrow(0, &s(BOB), 0, 100).unwrap();
    assert_eq!(c.ft_on_transfer(0, &s(TOKEN), &s(ALICE), 10, "borrow:0:0:5").unwrap_err(), PoolError::NotBorrowed);
    assert_eq!(c.ft_on_transfer(0, &s(TOKEN), &s(BOB), 200, "borrow:0:0:101").unwrap_err(), PoolError::AmountGreaterThanTransaction);
    assert_eq!(c.ft_on_transfer(0, &s(TOKEN), &s(BOB), 150, "borrow:0:0:100").unwrap_err(), PoolError::Underflow);
    assert_eq!(c.ft_on_transfer(0, &s(TOKEN), &s(BOB), 10, "borrow:0:3:5").unwrap_err(), PoolError::UnknownPosition);
    assert_eq!(c.ft_on_transfer(0, &s(TOKEN), &s("carol.near"), 10, "borrow:0:0:5").unwrap_err(), PoolError::UnknownAccount);
    assert_eq!(c.ft_on_transfer(0, &s(TOKEN), &s(BOB), 100, "borrow:0:0:100").unwrap().0, 2);
    assert_eq!(c.total_stakes_of_user(0, &s(BOB)).unwrap(), 0);
    assert_eq!(c.pool_info(0).unwrap().unique_users, 1);
}

#[test]
fn message_parsing() {
    assert_eq!(staking_pool::command::parse_message(b"staking:3"), Ok(Command::Stake { pid: 3 }));
    assert_eq!(staking_pool::command::parse_message(b"staking: +12 :x"), Ok(Command::Stake { pid: 12 }));
    assert_eq!(
        staking_pool::command::parse_message(b"borrow:1:2:300"),
        Ok(Command::Repay { pid: 1, index: 2, repay_amount: 300 })
    );
    assert_eq!(staking_pool::command::parse_message(b"staking"), Err(PoolError::WrongMessageFormat));
    assert_eq!(staking_pool::command::parse_message(b""), Err(PoolError::WrongMessageFormat));
    assert_eq!(staking_pool::command::parse_message(b"staking:x"), Err(PoolError::InvalidNumber));
    assert_eq!(staking_pool::command::parse_message(b"swap:x"), Err(PoolError::InvalidNumber));
    assert_eq!(staking_pool::command::parse_message(b"staking:"), Err(PoolError::InvalidNumber));
    assert_eq!(staking_pool::command::parse_message(b"staking:+"), Err(PoolError::InvalidNumber));
    assert_eq!(staking_pool::command::parse_message(b"borrow:1"), Err(PoolError::WrongMessageFormat));
    assert_eq!(staking_pool::command::parse_message(b"borrow:1:2"), Err(PoolError::WrongMessageFormat));
    assert_eq!(staking_pool::command::parse_message(b"borrow:1:-2:3"), Err(PoolError::InvalidNumber));
    assert_eq!(
        staking_pool::command::parse_message(b"staking:340282366920938463463374607431768211455"),
        Ok(Command::Stake { pid: u128::MAX })
    );
    assert_eq!(
        staking_pool::command::parse_message(b"staking:340282366920938463463374607431768211456"),
        Err(PoolError::InvalidNumber)
    );
}

#[test]
fn percentage_and_utilisation() {
    let mut c = Contract::new(s(OWNER));
    assert_eq!(c._calculate_percentage(50, 0), 0);
    assert_eq!(c._calculate_percentage(1, 3), 33);
    assert_eq!(c._calculate_percentage(700, 1000), 70);
    c.create_pool(&s(OWNER), pool(PoolType::Loan, 1, false, limits(0, 0, 0, 1, 1, 80)), PoolType::Loan).unwrap();
    assert_eq!(c.get_pool_utilisation(0), Ok(0));
    assert_eq!(c.get_pool_utilisation(1), Err(PoolError::UnknownPool));
    // Loans above the balance are capped at 100 percent.
    c.pool_info[0].funds = Funds { balance: 100, loaned_balance: 150 };
    assert_eq!(c.get_pool_utilisation(0), Ok(100));
    c.pool_info[0].funds = Funds { balance: 100, loaned_balance: u128::MAX };
    assert_eq!(c.get_pool_utilisation(0), Err(PoolError::Overflow));
}

#[test]
fn interest_formula_exact() {
    let mut c = Contract::new(s(OWNER));
    let lim = limits(0, 1000, 365 * 86_400_000, 10_000_000, 10_000_000, 80);
    c.create_pool(&s(OWNER), pool(PoolType::Staking, 1000, false, lim), PoolType::Staking).unwrap();
    c.internal_deposit_and_stake(0, s(ALICE), 0, s(TOKEN), 1_000_000).unwrap();
    assert_eq!(INTEREST_DIVISOR, 100 * 100 * 365 * ONE_DAY);
    // No interest before the deposit window ends.
    assert_eq!(c.calculate_interest(999, &s(ALICE), 0, 0, 1_000_000), Ok(0));
    let year: u64 = 365 * 86_400_000;
    assert_eq!(c.calculate_interest(1000 + year, &s(ALICE), 0, 0, 1_000_000), Ok(10_000_000));
    assert_eq!(c.calculate_interest(1000 + year, &s(ALICE), 0, 0, 1_000_001), Err(PoolError::AmountGreaterThanTransaction));
    assert_eq!(c.calculate_interest(1000 + year, &s(BOB), 0, 0, 1), Err(PoolError::UnknownAccount));
    assert_eq!(c.calculate_interest(1000 + year, &s(ALICE), 0, 1, 1), Err(PoolError::UnknownPosition));
}

#[test]
fn quarterly_payout_pays_once() {
    let mut c = Contract::new(s(OWNER));
    let year: u64 = 365 * 86_400_000;
    let lim = limits(0, 1000, year, 10_000_000, 10_000_000, 80);
    c.create_pool(&s(OWNER), pool(PoolType::Staking, 1000, true, lim), PoolType::Staking).unwrap();
    c.internal_deposit_and_stake(0, s(ALICE), 0, s(TOKEN), 1_000_000).unwrap();
    assert_eq!(c.claim_quarterly_payout(1000, &s(ALICE), 0, 0).unwrap_err(), PoolError::NotStarted);
    assert_eq!(c.claim_quarterly_payout(1000 + QUARTER_DAY - 1, &s(ALICE), 0, 0).unwrap_err(), PoolError::TooEarly);
    let now = 1000 + year;
    let (paid, acts) = c.claim_quarterly_payout(now, &s(ALICE), 0, 0).unwrap();
    assert_eq!(paid, 10_000_000);
    assert!(is_transfer(&acts[0], ALICE, 10_000_000));
    assert_eq!(stakes(&c, ALICE)[0].paid_out, 10_000_000);
    let (again, _) = c.claim_quarterly_payout(now, &s(ALICE), 0, 0).unwrap();
    assert_eq!(again, 0);
    assert_eq!(stakes(&c, ALICE)[0].paid_out, 10_000_000);
    assert_eq!(c.claim_quarterly_payout(now, &s(ALICE), 0, 4).unwrap_err(), PoolError::UnknownPosition);
}

#[test]
fn quarterly_payout_errors() {
    let mut c = staking_contract();
    c.internal_deposit_and_stake(0, s(ALICE), 0, s(TOKEN), 10).unwrap();
    assert_eq!(c.claim_quarterly_payout(2000, &s(ALICE), 0, 0).unwrap_err(), PoolError::QuarterlyPayoutDisabled);
    assert_eq!(c.claim_quarterly_payout(2000, &s(BOB), 0, 0).unwrap_err(), PoolError::UnknownAccount);
    let mut l = loan_contract(80);
    let mut q = pool(PoolType::Loan, 1, true, limits(0, 0, 0, 10_000, 10_000, 80));
    q.quarterly_payout = true;
    l.edit_pool(&s(OWNER), 0, q).unwrap();
    assert_eq!(l.claim_quarterly_payout(2000, &s(ALICE), 0, 0).unwrap_err(), PoolError::NotStakingPool);
}

#[test]
fn payout_never_decreases() {
    let mut c = Contract::new(s(OWNER));
    let year: u64 = 365 * 86_400_000;
    let lim = limits(0, 1000, 2 * year, 10_000_000, 10_000_000, 80);
    c.create_pool(&s(OWNER), pool(PoolType::Staking, 1000, true, lim), PoolType::Staking).unwrap();
    c.internal_deposit_and_stake(0, s(ALICE), 0, s(TOKEN), 1_000_000).unwrap();
    let (first, _) = c.claim_quarterly_payout(1000 + year, &s(ALICE), 0, 0).unwrap();
    assert_eq!(first, 10_000_000);
    // The reward on the 600_000 withdrawn over two years is 12_000_000, of
    // which 10_000_000 was paid already.
    let acts = c.withdraw(1000 + 2 * year, &s(ALICE), 0, 0, 600_000).unwrap();
    assert!(is_transfer(&acts[0], ALICE, 2_000_000));
    let st = stakes(&c, ALICE);
    assert_eq!(st[0].amount, 400_000);
    assert_eq!(st[0].paid_out, 12_000_000);
    // The interest on the 400_000 left is below what was paid.
    let (later, _) = c.claim_quarterly_payout(1000 + 2 * year, &s(ALICE), 0, 0).unwrap();
    assert_eq!(later, 0);
    assert_eq!(stakes(&c, ALICE)[0].paid_out, 12_000_000);
}

#[test]
fn views_and_ranges() {
    let mut c = staking_contract();
    c.create_pool(&s(OWNER), pool(PoolType::Loan, 5, false, limits(0, 0, 0, 1, 1, 1)), PoolType::Loan).unwrap();
    assert_eq!(c.total_pools(), 2);
    let all = c.get_pool_info(0, 2).unwrap();
    assert_eq!(all.len(), 2);
    assert_eq!(all[1].apy, 5);
    assert_eq!(c.get_pool_info(1, 1).unwrap().len(), 0);
    assert_eq!(c.get_pool_info(0, 3).unwrap_err(), PoolError::UnknownPool);
    assert_eq!(c.pool_info(2).unwrap_err(), PoolError::UnknownPool);
    c.internal_deposit_and_stake(0, s(ALICE), 0, s(TOKEN), 1).unwrap();
    c.internal_deposit_and_stake(0, s(ALICE), 0, s(TOKEN), 2).unwrap();
    let st = c.get_user_stakes(0, &s(ALICE), 1, 2).unwrap();
    assert_eq!(st.len(), 1);
    assert_eq!(st[0].amount, 2);
    assert_eq!(c.get_user_stakes(0, &s(ALICE), 1, 3).unwrap_err(), PoolError::UnknownPosition);
    assert_eq!(c.get_user_stakes(0, &s(BOB), 0, 1).unwrap_err(), PoolError::UnknownAccount);
    assert_eq!(c.get_user_stakes(9, &s(BOB), 0, 1).unwrap_err(), PoolError::UnknownPool);
    assert_eq!(c.total_stakes_of_user(0, &s(BOB)).unwrap_err(), PoolError::UnknownAccount);
    assert_eq!(c.total_stakes_of_user(9, &s(BOB)).unwrap_err(), PoolError::UnknownPool);
}

#[test]
fn metadata_callback_overwrites_display_fields() {
    let c = staking_contract();
    let mut p = c.pool_info(0).unwrap();
    Contract::ft_metadata_callback(&mut p, TokenMetadata { decimals: 18, name: s("Wrapped"), symbol: s("W") });
    assert_eq!(p.token_info.decimals, 18);
    assert_eq!(p.token_info.name, "Wrapped");
    assert_eq!(p.token_info.symbol, "W");
    assert_eq!(p.token_info.token, TOKEN);
}

#[test]
fn arithmetic_limits_are_errors() {
    let mut c = Contract::new(s(OWNER));
    c.create_pool(&s(OWNER), pool(PoolType::Loan, u128::MAX, false, limits(0, 0, 0, u128::MAX, u128::MAX, 100)), PoolType::Loan)
        .unwrap();
    c.internal_deposit_and_stake(0, s(ALICE), 0, s(TOKEN), u128::MAX - 1).unwrap();
    assert_eq!(c.internal_deposit_and_stake(0, s(ALICE), 0, s(TOKEN), 2).unwrap_err(), PoolError::Overflow);
    c.whitelist(&s(OWNER), 0, s(BOB), true).unwrap();
    assert_eq!(c.borrow(0, &s(BOB), 0, u128::MAX / 50).unwrap_err(), PoolError::Overflow);
    let mut d = staking_contract();
    d.internal_deposit_and_stake(0, s(ALICE), 0, s(TOKEN), 10).unwrap();
    let mut q = pool(PoolType::Staking, u128::MAX, false, limits(0, 1000, 500, 100, 1000, 80));
    q.apy = u128::MAX;
    d.edit_pool(&s(OWNER), 0, q).unwrap();
    assert_eq!(d.calculate_interest(1500, &s(ALICE), 0, 0, 10), Err(PoolError::Overflow));
    assert_eq!(d.withdraw(1500, &s(ALICE), 0, 0, 10).unwrap_err(), PoolError::Overflow);
}

#[test]
fn validity_is_decided() {
    let mut c = loan_contract(80);
    c.borrow(10, &s(BOB), 0, 100).unwrap();
    assert!(c.is_valid());
    c.pool_info[0].unique_users = 5;
    assert!(!c.is_valid());
    c.pool_info[0].unique_users = 2;
    assert!(c.is_valid());
    c.pool_info[0].funds.loaned_balance = 2000;
    assert!(!c.is_valid());
    c.pool_info[0].funds.loaned_balance = 100;
    c.accounts[0].is_pool_user = false;
    assert!(!c.is_valid());
    assert!(Contract::new(s(OWNER)).is_valid());
}
