//! The mathematical model of the ledger: account lookup, membership counts,
//! utilisation and the interest owed on a position.
use vstd::prelude::*;

use crate::math::{interest_amount, interest_fits, percentage};
use crate::types::{AccountView, Funds, PoolError, PoolInfo, PoolType, UserInfo};

verus! {

/// The model of a `Contract`.
pub struct ContractView {
    pub owner: Seq<char>,
    pub pools: Seq<PoolInfo>,
    pub accounts: Seq<AccountView>,
}

/// Where the state of `account` in pool `pid` stands in `l`, or -1.
pub open spec fn slot(l: Seq<AccountView>, pid: u128, account: Seq<char>) -> int {
    if exists|j: int| 0 <= j < l.len() && l[j].pid == pid && l[j].account == account {
        choose|j: int| 0 <= j < l.len() && l[j].pid == pid && l[j].account == account
    } else {
        -1
    }
}

/// The state of an account that has never been seen in a pool.
pub open spec fn empty_account(pid: u128, account: Seq<char>) -> AccountView {
    AccountView {
        pid,
        account,
        is_pool_user: false,
        is_whitelisted: false,
        positions: Seq::empty(),
        staked: 0,
        borrowed: 0,
    }
}

/// The state of `account` in pool `pid`.
pub open spec fn account_of(l: Seq<AccountView>, pid: u128, account: Seq<char>) -> AccountView {
    if slot(l, pid, account) >= 0 {
        l[slot(l, pid, account)]
    } else {
        empty_account(pid, account)
    }
}

/// `l` with the state of `account` in pool `pid` replaced by `v`.
pub open spec fn put_account(l: Seq<AccountView>, pid: u128, account: Seq<char>, v: AccountView) -> Seq<
    AccountView,
> {
    if slot(l, pid, account) >= 0 {
        l.update(slot(l, pid, account), v)
    } else {
        l.push(v)
    }
}

/// 1 where `a` is an account of pool `pid` with an open position, else 0.
pub open spec fn user_mark(a: AccountView, pid: u128) -> nat {
    if a.pid == pid && a.positions.len() > 0 {
        1
    } else {
        0
    }
}

/// The number of accounts in `l` with at least one position in pool `pid`.
pub open spec fn count_users(l: Seq<AccountView>, pid: u128) -> nat
    decreases l.len(),
{
    if l.len() == 0 {
        0
    } else {
        count_users(l.drop_last(), pid) + user_mark(l.last(), pid)
    }
}

/// No two entries of `l` are for the same account in the same pool.
pub open spec fn keys_unique(l: Seq<AccountView>) -> bool {
    forall|i: int, j: int|
        0 <= i < l.len() && 0 <= j < l.len() && i != j ==> !(l[i].pid == l[j].pid && l[i].account
            == l[j].account)
}

/// The current utilisation of a pool in percent, capped at 100.
pub open spec fn utilisation_of(p: PoolInfo) -> int {
    if p.funds.balance == 0 {
        0
    } else if percentage(p.funds.loaned_balance as int, p.funds.balance as int) > 100 {
        100
    } else {
        percentage(p.funds.loaned_balance as int, p.funds.balance as int)
    }
}

/// What reading the utilisation of a pool gives.
pub open spec fn utilisation_result(p: PoolInfo) -> Result<u128, PoolError> {
    if p.funds.balance != 0 && p.funds.loaned_balance * 100 > u128::MAX {
        Err(PoolError::Overflow)
    } else {
        Ok(utilisation_of(p) as u128)
    }
}

/// What the interest on `amount` of position `pos` in pool `p` comes to at
/// time `now`.
pub open spec fn interest_on(p: PoolInfo, pos: UserInfo, now: u64, amount: u128) -> Result<
    u128,
    PoolError,
> {
    if amount > pos.amount {
        Err(PoolError::AmountGreaterThanTransaction)
    } else if p.pool_type == PoolType::Staking && now < p.deposit_limiters.end_time {
        Ok(0)
    } else {
        let start: u64 = if p.pool_type == PoolType::Loan {
            pos.time
        } else {
            p.deposit_limiters.end_time
        };
        match (if p.pool_type == PoolType::Loan {
            utilisation_result(p)
        } else {
            Ok(100u128)
        }) {
            Err(e) => Err(e),
            Ok(u) => if now < start {
                Err(PoolError::Underflow)
            } else if !interest_fits(amount as int, p.apy as int, u as int, now - start) {
                Err(PoolError::Overflow)
            } else {
                Ok(interest_amount(amount as int, p.apy as int, u as int, now - start) as u128)
            },
        }
    }
}

/// The lookup in `l` finds the one entry for (`pid`, `account`) at `j`.
pub proof fn lemma_slot_at(l: Seq<AccountView>, pid: u128, account: Seq<char>, j: int)
    requires
        keys_unique(l),
        0 <= j < l.len(),
        l[j].pid == pid,
        l[j].account == account,
    ensures
        slot(l, pid, account) == j,
{
    let k = slot(l, pid, account);
    assert(0 <= k < l.len() && l[k].pid == pid && l[k].account == account);
}

/// A lookup that finds nothing.
pub proof fn lemma_slot_none(l: Seq<AccountView>, pid: u128, account: Seq<char>)
    requires
        forall|j: int| 0 <= j < l.len() ==> !(l[j].pid == pid && l[j].account == account),
    ensures
        slot(l, pid, account) == -1,
{
}

/// Replacing one entry changes the count by the marks of the old and new
/// entry.
pub proof fn lemma_count_update(l: Seq<AccountView>, j: int, v: AccountView, pid: u128)
    requires
        0 <= j < l.len(),
    ensures
        count_users(l.update(j, v), pid) + user_mark(l[j], pid) == count_users(l, pid) + user_mark(
            v,
            pid,
        ),
    decreases l.len(),
{
    let u = l.update(j, v);
    if j == l.len() - 1 {
        assert(u.drop_last() =~= l.drop_last());
    } else {
        assert(u.drop_last() =~= l.drop_last().update(j, v));
        lemma_count_update(l.drop_last(), j, v, pid);
    }
}

/// Appending an entry adds its mark to the count.
pub proof fn lemma_count_push(l: Seq<AccountView>, v: AccountView, pid: u128)
    ensures
        count_users(l.push(v), pid) == count_users(l, pid) + user_mark(v, pid),
{
    assert(l.push(v).drop_last() =~= l);
}

/// The count never exceeds the number of entries.
pub proof fn lemma_count_le_len(l: Seq<AccountView>, pid: u128)
    ensures
        count_users(l, pid) <= l.len(),
    decreases l.len(),
{
    if l.len() > 0 {
        lemma_count_le_len(l.drop_last(), pid);
    }
}

/// A pool that no entry belongs to has no users.
pub proof fn lemma_count_absent(l: Seq<AccountView>, pid: u128)
    requires
        forall|j: int| 0 <= j < l.len() ==> l[j].pid != pid,
    ensures
        count_users(l, pid) == 0,
    decreases l.len(),
{
    if l.len() > 0 {
        lemma_count_absent(l.drop_last(), pid);
    }
}

/// Replacing an entry of another pool leaves the count unchanged.
pub proof fn lemma_count_other(l: Seq<AccountView>, j: int, v: AccountView, pid: u128)
    requires
        0 <= j < l.len(),
        l[j].pid != pid,
        v.pid != pid,
    ensures
        count_users(l.update(j, v), pid) == count_users(l, pid),
{
    lemma_count_update(l, j, v, pid);
}

} // verus!

verus! {

impl ContractView {
    /// The invariant of the ledger: one state per (pool, account), each for an
    /// existing pool, the membership flag set exactly for accounts with
    /// positions, and each pool's `unique_users` equal to the number of such
    /// accounts.
    pub open spec fn wf(self) -> bool {
        &&& keys_unique(self.accounts)
        &&& forall|j: int| 0 <= j < self.accounts.len() ==> self.accounts[j].pid < self.pools.len()
        &&& forall|j: int|
            0 <= j < self.accounts.len() ==> self.accounts[j].is_pool_user == (
            self.accounts[j].positions.len() > 0)
        &&& forall|p: u128|
            (p as int) < self.pools.len() ==> #[trigger] self.pools[p as int].unique_users
                == count_users(self.accounts, p)
    }

    /// Every pool has lent out no more than it holds, a staking pool nothing
    /// at all, and every utilisation ceiling is on the 0 to 100 scale.
    pub open spec fn funds_sound(self) -> bool {
        forall|p: int|
            0 <= p < self.pools.len() ==> {
                &&& self.pools[p].funds.loaned_balance <= self.pools[p].funds.balance
                &&& self.pools[p].pool_type == PoolType::Staking ==> self.pools[p].funds.loaned_balance
                    == 0
                &&& self.pools[p].deposit_limiters.max_utilisation <= 100
            }
    }

    /// A ledger state that the operations accept: the invariant `wf` and
    /// sound funds.
    pub open spec fn valid(self) -> bool {
        self.wf() && self.funds_sound()
    }

    /// The state of `account` in pool `pid`.
    pub open spec fn account(self, pid: u128, account: Seq<char>) -> AccountView {
        account_of(self.accounts, pid, account)
    }

    /// The model with pool `pid` replaced by `p` and the state of `account`
    /// in it by `v`.
    pub open spec fn put(self, pid: u128, p: PoolInfo, account: Seq<char>, v: AccountView) -> ContractView {
        ContractView {
            pools: self.pools.update(pid as int, p),
            accounts: put_account(self.accounts, pid, account, v),
            ..self
        }
    }
}

/// Replacing one pool and one account state keeps the invariant where the
/// new state is consistent and the pool's user count moves with its mark.
pub proof fn lemma_put_wf(s: ContractView, pid: u128, p: PoolInfo, account: Seq<char>, v: AccountView)
    requires
        s.wf(),
        pid < s.pools.len(),
        v.pid == pid,
        v.account == account,
        v.is_pool_user == (v.positions.len() > 0),
        p.unique_users + user_mark(s.account(pid, account), pid) == s.pools[pid as int].unique_users
            + user_mark(v, pid),
    ensures
        s.put(pid, p, account, v).wf(),
{
    let t = s.put(pid, p, account, v);
    let k = slot(s.accounts, pid, account);
    if k >= 0 {
        assert(0 <= k < s.accounts.len() && s.accounts[k].pid == pid && s.accounts[k].account
            == account);
        assert forall|q: u128| (q as int) < t.pools.len() implies #[trigger] t.pools[q as int].unique_users
            == count_users(t.accounts, q) by {
            lemma_count_update(s.accounts, k, v, q);
        }
        assert forall|i: int, j: int|
            0 <= i < t.accounts.len() && 0 <= j < t.accounts.len() && i != j implies !(
            t.accounts[i].pid == t.accounts[j].pid && t.accounts[i].account
                == t.accounts[j].account) by {
            assert(!(s.accounts[i].pid == s.accounts[j].pid && s.accounts[i].account
                == s.accounts[j].account));
        }
    } else {
        assert forall|q: u128| (q as int) < t.pools.len() implies #[trigger] t.pools[q as int].unique_users
            == count_users(t.accounts, q) by {
            lemma_count_push(s.accounts, v, q);
        }
        assert forall|i: int, j: int|
            0 <= i < t.accounts.len() && 0 <= j < t.accounts.len() && i != j implies !(
            t.accounts[i].pid == t.accounts[j].pid && t.accounts[i].account
                == t.accounts[j].account) by {
            if i < s.accounts.len() && j < s.accounts.len() {
                assert(!(s.accounts[i].pid == s.accounts[j].pid && s.accounts[i].account
                    == s.accounts[j].account));
            } else if i < s.accounts.len() {
                assert(!(s.accounts[i].pid == pid && s.accounts[i].account == account));
            } else {
                assert(!(s.accounts[j].pid == pid && s.accounts[j].account == account));
            }
        }
    }
}

} // verus!

verus! {

/// What computing the interest on `amount` of position `index` of `user` in
/// pool `pid` gives at time `now`.
pub open spec fn interest_result(
    s: ContractView,
    now: u64,
    user: Seq<char>,
    pid: u128,
    index: int,
    amount: u128,
) -> Result<u128, PoolError> {
    if pid >= s.pools.len() {
        Err(PoolError::UnknownPool)
    } else if slot(s.accounts, pid, user) < 0 {
        Err(PoolError::UnknownAccount)
    } else if index >= s.account(pid, user).positions.len() {
        Err(PoolError::UnknownPosition)
    } else {
        interest_on(s.pools[pid as int], s.account(pid, user).positions[index], now, amount)
    }
}

/// The reward that settlement owes on `amount` of position `pos` in pool `p`
/// at time `now`, where `duration` has passed since the deposit window
/// ended. On a staking pool, accrual stops after the pool's reward window:
/// the elapsed time counts at most `p.deposit_limiters.duration`. On a loan
/// pool the reward is the interest of `interest_on`.
pub open spec fn reward_on(p: PoolInfo, pos: UserInfo, now: u64, duration: u64, amount: u128) -> Result<
    u128,
    PoolError,
> {
    if amount > pos.amount {
        Err(PoolError::AmountGreaterThanTransaction)
    } else if p.pool_type == PoolType::Staking && now >= p.deposit_limiters.end_time {
        let elapsed: u64 = if duration > p.deposit_limiters.duration {
            p.deposit_limiters.duration
        } else {
            duration
        };
        if !interest_fits(amount as int, p.apy as int, 100, elapsed as int) {
            Err(PoolError::Overflow)
        } else {
            Ok(interest_amount(amount as int, p.apy as int, 100, elapsed as int) as u128)
        }
    } else {
        interest_on(p, pos, now, amount)
    }
}

/// What settling the reward on `amount` of position `index` of `user` in
/// pool `pid` gives at time `now`, `duration` after the deposit window
/// ended.
pub open spec fn reward_result(
    s: ContractView,
    now: u64,
    user: Seq<char>,
    pid: u128,
    index: int,
    duration: u64,
    amount: u128,
) -> Result<u128, PoolError> {
    if pid >= s.pools.len() {
        Err(PoolError::UnknownPool)
    } else if slot(s.accounts, pid, user) < 0 {
        Err(PoolError::UnknownAccount)
    } else if index >= s.account(pid, user).positions.len() {
        Err(PoolError::UnknownPosition)
    } else {
        reward_on(s.pools[pid as int], s.account(pid, user).positions[index], now, duration, amount)
    }
}

/// The part of `reward` not yet paid out.
pub open spec fn claimable(reward: u128, paid_out: u128) -> u128 {
    if reward > paid_out {
        (reward - paid_out) as u128
    } else {
        0
    }
}

/// `a` with position `index` replaced by `pos`.
pub open spec fn with_position(a: AccountView, index: int, pos: UserInfo) -> AccountView {
    AccountView { positions: a.positions.update(index, pos), ..a }
}

/// `ps` with position `index` removed by moving the last one into its place
/// where its principal is zero.
pub open spec fn cleaned(ps: Seq<UserInfo>, index: int) -> Seq<UserInfo> {
    if ps[index].amount == 0 {
        ps.update(index, ps.last()).drop_last()
    } else {
        ps
    }
}

/// Replacing the state of one existing account twice is replacing it once.
pub proof fn lemma_put_twice(
    s: ContractView,
    pid: u128,
    pool_a: PoolInfo,
    account: Seq<char>,
    v1: AccountView,
    pool_b: PoolInfo,
    v2: AccountView,
)
    requires
        keys_unique(s.accounts),
        (pid as int) < s.pools.len(),
        slot(s.accounts, pid, account) >= 0,
        v1.pid == pid,
        v1.account == account,
    ensures
        s.put(pid, pool_a, account, v1).put(pid, pool_b, account, v2) == s.put(pid, pool_b, account, v2),
        s.put(pid, pool_a, account, v1).account(pid, account) == v1,
        slot(s.put(pid, pool_a, account, v1).accounts, pid, account) == slot(s.accounts, pid, account),
        keys_unique(s.put(pid, pool_a, account, v1).accounts),
{
    let k = slot(s.accounts, pid, account);
    assert(0 <= k < s.accounts.len() && s.accounts[k].pid == pid && s.accounts[k].account
        == account);
    let t = s.put(pid, pool_a, account, v1);
    assert(t.accounts == s.accounts.update(k, v1));
    assert forall|i: int, j: int|
        0 <= i < t.accounts.len() && 0 <= j < t.accounts.len() && i != j implies !(
        t.accounts[i].pid == t.accounts[j].pid && t.accounts[i].account == t.accounts[j].account) by {
        assert(!(s.accounts[i].pid == s.accounts[j].pid && s.accounts[i].account
            == s.accounts[j].account));
    }
    lemma_slot_at(t.accounts, pid, account, k);
    assert(t.accounts.update(k, v2) =~= s.accounts.update(k, v2));
    assert(t.pools.update(pid as int, pool_b) =~= s.pools.update(pid as int, pool_b));
}

/// An account with an open position counts towards its pool's users.
pub proof fn lemma_count_ge_mark(l: Seq<AccountView>, j: int, pid: u128)
    requires
        0 <= j < l.len(),
    ensures
        count_users(l, pid) >= user_mark(l[j], pid),
{
    let v = AccountView { positions: Seq::empty(), ..l[j] };
    lemma_count_update(l, j, v, pid);
}

} // verus!

verus! {

impl ContractView {
    /// The state after `claim` more reward is recorded as paid on position
    /// `index` of `account` in pool `pid`.
    pub open spec fn rewarded(self, pid: u128, account: Seq<char>, index: int, claim: u128) -> ContractView {
        let a = self.account(pid, account);
        let pos = a.positions[index];
        self.put(
            pid,
            self.pools[pid as int],
            account,
            with_position(a, index, UserInfo { paid_out: (pos.paid_out + claim) as u128, ..pos }),
        )
    }

    /// The state after `principal` is taken off position `index` of
    /// `account` in pool `pid` at time `now`, and the account's totals and
    /// the pool's funds are lowered by the given sums.
    pub open spec fn settled(
        self,
        pid: u128,
        account: Seq<char>,
        index: int,
        principal: u128,
        now: u64,
        staked: u128,
        borrowed: u128,
        balance: u128,
        loaned: u128,
    ) -> ContractView {
        let a = self.account(pid, account);
        let pos = a.positions[index];
        let p = self.pools[pid as int];
        self.put(
            pid,
            PoolInfo {
                funds: Funds {
                    balance: (p.funds.balance - balance) as u128,
                    loaned_balance: (p.funds.loaned_balance - loaned) as u128,
                },
                ..p
            },
            account,
            AccountView {
                positions: a.positions.update(
                    index,
                    UserInfo { amount: (pos.amount - principal) as u128, time: now, ..pos },
                ),
                staked: (a.staked - staked) as u128,
                borrowed: (a.borrowed - borrowed) as u128,
                ..a
            },
        )
    }

    /// The state after position `index` of `account` in pool `pid` is
    /// removed where its principal is zero (the last position moves into its
    /// place), and the account leaves the pool's users where no position is
    /// left.
    pub open spec fn cleaned_up(self, pid: u128, account: Seq<char>, index: int) -> ContractView {
        let a = self.account(pid, account);
        let p = self.pools[pid as int];
        let ps = cleaned(a.positions, index);
        self.put(
            pid,
            PoolInfo {
                unique_users: if ps.len() == 0 {
                    (p.unique_users - 1) as u128
                } else {
                    p.unique_users
                },
                ..p
            },
            account,
            AccountView { positions: ps, is_pool_user: ps.len() > 0, ..a },
        )
    }
}

} // verus!
