//! Integer arithmetic of the ledger: percentages and simple interest.
use vstd::prelude::*;

verus! {

/// One hour, in milliseconds.
pub const ONE_HOUR: u128 = 3600000;

/// One day, in milliseconds.
pub const ONE_DAY: u128 = 86400000;

/// Ninety days, in milliseconds: the period of a quarterly payout.
pub const QUARTER_DAY: u64 = 86400000 * 90;

/// The deposit attached to every outbound token request.
pub const DEPOSIT_ONE_YOCTO: u128 = 1;

/// `100 * 100 * 365 * ONE_DAY`: the divisor of the interest formula
/// (apy scaled by 100, utilisation in percent, a year in milliseconds).
pub const INTEREST_DIVISOR: u128 = 100 * 100 * 365 * ONE_DAY;

/// `value` as a percentage of `of`, rounded down; zero when `of` is zero.
pub open spec fn percentage(value: int, of: int) -> int {
    if of == 0 {
        0
    } else {
        value * 100 / of
    }
}

/// The three partial products of the interest formula all fit in a `u128`.
pub open spec fn interest_fits(amount: int, apy: int, utilisation: int, elapsed: int) -> bool {
    &&& amount * apy <= u128::MAX
    &&& amount * apy * utilisation <= u128::MAX
    &&& amount * apy * utilisation * elapsed <= u128::MAX
}

/// Simple interest on `amount` at `apy` (scaled by 100), weighted by
/// `utilisation` percent, over `elapsed` milliseconds.
pub open spec fn interest_amount(amount: int, apy: int, utilisation: int, elapsed: int) -> int {
    amount * apy * utilisation * elapsed / (INTEREST_DIVISOR as int)
}

/// Computes `interest_amount`, or `None` where one of the partial products
/// overflows a `u128`.
pub fn checked_interest(amount: u128, apy: u128, utilisation: u128, elapsed: u128) -> (r: Option<
    u128,
>)
    ensures
        r == (if interest_fits(amount as int, apy as int, utilisation as int, elapsed as int) {
            Some(interest_amount(amount as int, apy as int, utilisation as int, elapsed as int) as u128)
        } else {
            None::<u128>
        }),
{
    let partial = match amount.checked_mul(apy) {
        Some(p) => p,
        None => return None,
    };
    let weighted = match partial.checked_mul(utilisation) {
        Some(p) => p,
        None => return None,
    };
    let product = match weighted.checked_mul(elapsed) {
        Some(p) => p,
        None => return None,
    };
    proof {
        assert(0 <= product / INTEREST_DIVISOR <= product) by (nonlinear_arith)
            requires product >= 0;
    }
    Some(product / INTEREST_DIVISOR)
}

} // verus!
