//! The ledger's data: pools, positions, per-account state, outbound actions
//! and errors.
use vstd::prelude::*;

verus! {

/// The kind of a pool.
#[derive(Clone, Copy, Debug, PartialEq, Eq, Structural)]
pub enum PoolType {
    /// Time-locked deposits that earn a fixed yield.
    Staking,
    /// Deposits that whitelisted accounts may borrow against.
    Loan,
}

/// The kind of a position.
#[derive(Clone, Copy, Debug, PartialEq, Eq, Structural)]
pub enum TransactionType {
    /// A deposit.
    Staking,
    /// A loan.
    Borrow,
}

/// One position of an account in a pool: a deposit or a loan.
#[derive(Clone, Copy, Debug, PartialEq, Eq, Structural)]
pub struct UserInfo {
    pub transaction_type: TransactionType,
    /// Remaining principal.
    pub amount: u128,
    /// Last time the position was touched, in milliseconds.
    pub time: u64,
    /// Reward already paid out for this position.
    pub paid_out: u128,
}

/// The tokens of a pool and the display fields of its underlying token.
#[derive(Debug)]
pub struct TokenInfo {
    /// The underlying token's account.
    pub token: String,
    /// The claim token minted to stakers.
    pub collateral_token: String,
    pub decimals: u8,
    pub name: String,
    pub symbol: String,
}

/// Deposit window and limits of a pool.
#[derive(Clone, Copy, Debug, PartialEq, Eq, Structural)]
pub struct DepositLimiters {
    /// Length of the reward window that follows `end_time`.
    pub duration: u64,
    /// Start of the deposit window of a staking pool.
    pub start_time: u64,
    /// End of the deposit window of a staking pool.
    pub end_time: u64,
    /// Largest single deposit.
    pub limit_per_user: u128,
    /// Largest pool balance.
    pub capacity: u128,
    /// Utilisation ceiling, in percent.
    pub max_utilisation: u128,
}

/// What a pool holds and what it has lent out.
#[derive(Clone, Copy, Debug, PartialEq, Eq, Structural)]
pub struct Funds {
    pub balance: u128,
    pub loaned_balance: u128,
}

/// The configuration and live counters of one pool.
#[derive(Debug)]
pub struct PoolInfo {
    pub pool_name: String,
    pub pool_type: PoolType,
    /// Annual yield, in hundredths of a percent.
    pub apy: u128,
    pub paused: bool,
    pub quarterly_payout: bool,
    /// Number of accounts with at least one position in the pool.
    pub unique_users: u128,
    pub token_info: TokenInfo,
    pub funds: Funds,
    pub deposit_limiters: DepositLimiters,
}

/// The display fields that a token reports about itself.
#[derive(Debug)]
pub struct TokenMetadata {
    pub decimals: u8,
    pub name: String,
    pub symbol: String,
}

/// The state of one account in one pool.
#[derive(Debug)]
pub struct AccountState {
    /// The pool this state belongs to.
    pub pid: u128,
    pub account: String,
    /// The account holds at least one position in the pool.
    pub is_pool_user: bool,
    /// The account may borrow from the pool.
    pub is_whitelisted: bool,
    /// The account's positions, in no guaranteed order.
    pub positions: Vec<UserInfo>,
    /// Running total of the account's deposits.
    pub staked: u128,
    /// Running total of the account's loans.
    pub borrowed: u128,
}

/// The model of an `AccountState`.
pub struct AccountView {
    pub pid: u128,
    pub account: Seq<char>,
    pub is_pool_user: bool,
    pub is_whitelisted: bool,
    pub positions: Seq<UserInfo>,
    pub staked: u128,
    pub borrowed: u128,
}

impl View for AccountState {
    type V = AccountView;

    open spec fn view(&self) -> AccountView {
        AccountView {
            pid: self.pid,
            account: self.account@,
            is_pool_user: self.is_pool_user,
            is_whitelisted: self.is_whitelisted,
            positions: self.positions@,
            staked: self.staked,
            borrowed: self.borrowed,
        }
    }
}

/// An outbound request to a token contract, issued by an operation and
/// performed by the host once the operation has committed.
#[derive(Debug)]
pub enum Action {
    /// Move `amount` of `token` from this contract to `receiver`.
    Transfer { token: String, receiver: String, amount: u128 },
    /// Credit `amount` of the claim token `token` to `account`.
    Mint { token: String, account: String, amount: u128 },
    /// Debit `amount` of the claim token `token` from `account`.
    Burn { token: String, account: String, amount: u128 },
}

/// The model of an `Action`.
pub enum ActionView {
    Transfer { token: Seq<char>, receiver: Seq<char>, amount: u128 },
    Mint { token: Seq<char>, account: Seq<char>, amount: u128 },
    Burn { token: Seq<char>, account: Seq<char>, amount: u128 },
}

impl View for Action {
    type V = ActionView;

    open spec fn view(&self) -> ActionView {
        match self {
            Action::Transfer { token, receiver, amount } => ActionView::Transfer {
                token: token@,
                receiver: receiver@,
                amount: *amount,
            },
            Action::Mint { token, account, amount } => ActionView::Mint {
                token: token@,
                account: account@,
                amount: *amount,
            },
            Action::Burn { token, account, amount } => ActionView::Burn {
                token: token@,
                account: account@,
                amount: *amount,
            },
        }
    }
}

/// Why an operation was rejected. A rejected operation changes nothing.
#[derive(Clone, Copy, Debug, PartialEq, Eq, Structural)]
pub enum PoolError {
    /// The caller is not the contract's owner.
    CallerNotAllowed,
    /// No pool has that id.
    UnknownPool,
    /// The account has no positions record in the pool.
    UnknownAccount,
    /// No position has that index.
    UnknownPosition,
    PoolPaused,
    /// The transferred token is not the pool's underlying token.
    InvalidToken,
    /// A staking deposit outside the pool's deposit window.
    DepositsDisabled,
    /// A deposit above the pool's per-transaction limit.
    ExceedsLimitPerUser,
    /// A deposit that would take the pool above its capacity.
    CapacityReached,
    /// A staking pool whose deposit window does not end after it starts.
    EndBeforeStart,
    /// A utilisation ceiling above 100 percent.
    UtilisationOutOfScale,
    /// A pool with loans outstanding cannot become a staking pool.
    LoansOutstanding,
    /// A loan operation on a pool that is not a loan pool.
    NotLoanPool,
    /// A staking-only operation on a pool that is not a staking pool.
    NotStakingPool,
    /// The caller is not whitelisted for the pool.
    NotWhitelisted,
    /// A loan from a pool with a zero balance.
    NothingDeposited,
    /// The operation would take the pool to or above its utilisation ceiling.
    UtilisationMaxedOut,
    /// A withdrawal of liquidity that is on loan.
    HighUtilisation,
    /// The position is not a deposit.
    NotStaked,
    /// The position is not a loan.
    NotBorrowed,
    /// The amount exceeds the position's remaining principal.
    AmountGreaterThanTransaction,
    /// A withdrawal before the pool's lock has ended.
    WithdrawingTooEarly,
    /// The transferred amount does not cover principal and interest.
    InsufficientRepayment,
    /// Quarterly payouts are not enabled for the pool.
    QuarterlyPayoutDisabled,
    /// A payout before the reward window has started.
    NotStarted,
    /// A payout before a full quarter of the reward window has passed.
    TooEarly,
    /// A transfer message that names no known command.
    WrongMessageFormat,
    /// A numeric field of a transfer message is not a number in range.
    InvalidNumber,
    /// An intermediate amount does not fit in 128 bits.
    Overflow,
    /// A counter would go below zero.
    Underflow,
}

} // verus!
