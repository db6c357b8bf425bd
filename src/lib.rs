//! A multi-pool staking and lending ledger.
//!
//! Pools are created and tuned by the contract's owner. Users stake an
//! underlying token into pools, borrowers draw liquidity from loan pools and
//! repay it with interest. Every operation takes the current time and the
//! acting account as plain values, and returns the outbound token requests it
//! issues as a list of `Action`s, which the host performs after the call.

pub mod collateral_token;
pub mod command;
pub mod contract;
pub mod laws;
pub mod math;
pub mod model;
pub mod types;

pub use command::Command;
pub use contract::Contract;
pub use math::{DEPOSIT_ONE_YOCTO, INTEREST_DIVISOR, ONE_DAY, ONE_HOUR, QUARTER_DAY};
pub use types::{
    AccountState, Action, DepositLimiters, Funds, PoolError, PoolInfo, PoolType, TokenInfo,
    TokenMetadata, TransactionType, UserInfo,
};
