//! The ledger itself: pool registry, admission rules, deposits, loans,
//! withdrawals, repayments and reward settlement.
use vstd::prelude::*;
use vstd::string::StringSliceAdditionalSpecFns;

use crate::command::{parse_command, parse_message, Command};
use crate::math::{checked_interest, percentage, QUARTER_DAY};
use crate::model::{
    count_users, empty_account, keys_unique, lemma_count_absent, lemma_count_le_len, lemma_put_wf,
    lemma_slot_at, lemma_slot_none, put_account, slot, user_mark,
    utilisation_result, ContractView, interest_result, reward_result, claimable, with_position, cleaned,
    lemma_put_twice, lemma_count_ge_mark,
};
use crate::types::{
    AccountState, AccountView, Action, ActionView, Funds, PoolError, PoolInfo, PoolType, TokenInfo,
    TokenMetadata, TransactionType, UserInfo,
};

verus! {

/// The whole state of the ledger.
pub struct Contract {
    /// The account that may administer pools.
    pub owner: String,
    /// The pools, addressed by their index.
    pub pool_info: Vec<PoolInfo>,
    /// One state for each (pool, account) pair that has been seen.
    pub accounts: Vec<AccountState>,
}

impl View for Contract {
    type V = ContractView;

    open spec fn view(&self) -> ContractView {
        ContractView {
            owner: self.owner@,
            pools: self.pool_info@,
            accounts: self.accounts@.map_values(|a: AccountState| a@),
        }
    }
}

/// The model of a list of actions.
pub open spec fn actions_view(v: Seq<Action>) -> Seq<ActionView> {
    v.map_values(|a: Action| a@)
}

/// A copy of `s`.
fn copy_string(s: &String) -> (r: String)
    ensures
        r == *s,
{
    s.clone()
}

impl TokenInfo {
    /// A copy of these token fields.
    pub fn copy(&self) -> (r: TokenInfo)
        ensures
            r == *self,
    {
        TokenInfo {
            token: copy_string(&self.token),
            collateral_token: copy_string(&self.collateral_token),
            decimals: self.decimals,
            name: copy_string(&self.name),
            symbol: copy_string(&self.symbol),
        }
    }
}

impl PoolInfo {
    /// A copy of this pool.
    pub fn copy(&self) -> (r: PoolInfo)
        ensures
            r == *self,
    {
        PoolInfo {
            pool_name: copy_string(&self.pool_name),
            pool_type: self.pool_type,
            apy: self.apy,
            paused: self.paused,
            quarterly_payout: self.quarterly_payout,
            unique_users: self.unique_users,
            token_info: self.token_info.copy(),
            funds: self.funds,
            deposit_limiters: self.deposit_limiters,
        }
    }
}

/// What rejects an administrative operation on pool `pid`, if anything does.
pub open spec fn admin_check(s: ContractView, caller: Seq<char>, pid: u128) -> Option<PoolError> {
    if caller != s.owner {
        Some(PoolError::CallerNotAllowed)
    } else if pid >= s.pools.len() {
        Some(PoolError::UnknownPool)
    } else {
        None
    }
}

/// The pool that `create_pool` appends for `info`.
pub open spec fn created_pool(info: PoolInfo) -> PoolInfo {
    PoolInfo { funds: Funds { balance: 0, loaned_balance: 0 }, unique_users: 0, ..info }
}

/// Pool `old` reconfigured as `new`, keeping its live counters and its
/// underlying token.
pub open spec fn edited_pool(old: PoolInfo, new: PoolInfo) -> PoolInfo {
    PoolInfo {
        funds: old.funds,
        unique_users: old.unique_users,
        token_info: TokenInfo { token: old.token_info.token, ..new.token_info },
        ..new
    }
}

impl Contract {
    /// An empty ledger administered by `owner`.
    pub fn new(owner: String) -> (r: Contract)
        ensures
            r@.owner == owner@,
            r@.pools.len() == 0,
            r@.accounts.len() == 0,
            r@.valid(),
    {
        let r = Contract { owner, pool_info: Vec::new(), accounts: Vec::new() };
        assert(r@.accounts =~= Seq::<AccountView>::empty());
        r
    }

    /// Whether this state is one that the operations accept.
    pub fn is_valid(&self) -> (r: bool)
        ensures
            r == self@.valid(),
    {
        let n = self.accounts.len();
        let m = self.pool_info.len();
        let mut p: usize = 0;
        while p < m
            invariant
                m == self@.pools.len(),
                p <= m,
                forall|q: int|
                    0 <= q < p ==> {
                        &&& self@.pools[q].funds.loaned_balance <= self@.pools[q].funds.balance
                        &&& self@.pools[q].pool_type == PoolType::Staking
                            ==> self@.pools[q].funds.loaned_balance == 0
                        &&& self@.pools[q].deposit_limiters.max_utilisation <= 100
                    },
            decreases m - p,
        {
            let pool = &self.pool_info[p];
            if !(pool.funds.loaned_balance <= pool.funds.balance && (pool.pool_type
                != PoolType::Staking || pool.funds.loaned_balance == 0)
                && pool.deposit_limiters.max_utilisation <= 100) {
                return false;
            }
            p += 1;
        }
        let mut j: usize = 0;
        while j < n
            invariant
                n == self@.accounts.len(),
                m == self@.pools.len(),
                j <= n,
                forall|k: int|
                    0 <= k < j ==> self@.accounts[k].pid < m && self@.accounts[k].is_pool_user == (
                    self@.accounts[k].positions.len() > 0),
            decreases n - j,
        {
            let a = &self.accounts[j];
            assert(self@.accounts[j as int] == a@);
            if !(a.pid < m as u128 && a.is_pool_user == (a.positions.len() > 0)) {
                return false;
            }
            j += 1;
        }
        let mut i: usize = 0;
        while i < n
            invariant
                n == self@.accounts.len(),
                i <= n,
                forall|x: int, y: int|
                    0 <= x < i && 0 <= y < n && x != y ==> !(self@.accounts[x].pid
                        == self@.accounts[y].pid && self@.accounts[x].account
                        == self@.accounts[y].account),
            decreases n - i,
        {
            let mut k: usize = 0;
            while k < n
                invariant
                    n == self@.accounts.len(),
                    i < n,
                    k <= n,
                    forall|x: int, y: int|
                        0 <= x < i && 0 <= y < n && x != y ==> !(self@.accounts[x].pid
                            == self@.accounts[y].pid && self@.accounts[x].account
                            == self@.accounts[y].account),
                    forall|y: int|
                        0 <= y < k && i != y ==> !(self@.accounts[i as int].pid
                            == self@.accounts[y].pid && self@.accounts[i as int].account
                            == self@.accounts[y].account),
                decreases n - k,
            {
                assert(self@.accounts[i as int] == self.accounts@[i as int]@);
                assert(self@.accounts[k as int] == self.accounts@[k as int]@);
                if k != i && self.accounts[i].pid == self.accounts[k].pid && self.accounts[i].account
                    == self.accounts[k].account {
                    assert(!keys_unique(self@.accounts));
                    return false;
                }
                k += 1;
            }
            i += 1;
        }
        assert(keys_unique(self@.accounts));
        let mut q: usize = 0;
        while q < m
            invariant
                n == self@.accounts.len(),
                m == self@.pools.len(),
                q <= m,
                forall|t: u128|
                    (t as int) < q ==> #[trigger] self@.pools[t as int].unique_users == count_users(
                        self@.accounts,
                        t,
                    ),
            decreases m - q,
        {
            let pid = q as u128;
            let mut cnt: usize = 0;
            let mut k: usize = 0;
            proof {
                assert(self@.accounts.subrange(0, 0).len() == 0);
            }
            while k < n
                invariant
                    n == self@.accounts.len(),
                    k <= n,
                    cnt <= k,
                    cnt == count_users(self@.accounts.subrange(0, k as int), pid),
                decreases n - k,
            {
                let a = &self.accounts[k];
                proof {
                    assert(self@.accounts[k as int] == a@);
                    assert(self@.accounts.subrange(0, k + 1).drop_last() =~= self@.accounts.subrange(
                        0,
                        k as int,
                    ));
                }
                if a.pid == pid && a.positions.len() > 0 {
                    cnt += 1;
                }
                k += 1;
            }
            proof {
                assert(self@.accounts.subrange(0, n as int) =~= self@.accounts);
            }
            if self.pool_info[q].unique_users != cnt as u128 {
                assert(self@.pools[pid as int].unique_users != count_users(self@.accounts, pid));
                return false;
            }
            q += 1;
        }
        true
    }

    /// Whether `caller` is the ledger's owner.
    pub fn is_owner(&self, caller: &String) -> (r: bool)
        ensures
            r == (caller@ == self@.owner),
    {
        *caller == self.owner
    }

    /// Rejects a caller other than the owner.
    pub fn assert_caller_allowed(&self, caller: &String) -> (r: Result<(), PoolError>)
        ensures
            r == (if caller@ == self@.owner {
                Ok::<(), PoolError>(())
            } else {
                Err(PoolError::CallerNotAllowed)
            }),
    {
        if self.is_owner(caller) {
            Ok(())
        } else {
            Err(PoolError::CallerNotAllowed)
        }
    }

    /// Where the state of `account` in pool `pid` stands, if it exists.
    pub fn find_account(&self, pid: u128, account: &String) -> (r: Option<usize>)
        requires
            self@.wf(),
        ensures
            match r {
                Some(j) => j < self.accounts.len() && j == slot(self@.accounts, pid, account@),
                None => slot(self@.accounts, pid, account@) == -1,
            },
    {
        let mut j: usize = 0;
        while j < self.accounts.len()
            invariant
                self@.wf(),
                j <= self.accounts.len(),
                forall|k: int|
                    0 <= k < j ==> !(self@.accounts[k].pid == pid && self@.accounts[k].account
                        == account@),
            decreases self.accounts.len() - j,
        {
            if self.accounts[j].pid == pid && self.accounts[j].account == *account {
                proof {
                    lemma_slot_at(self@.accounts, pid, account@, j as int);
                }
                return Some(j);
            }
            j += 1;
        }
        proof {
            lemma_slot_none(self@.accounts, pid, account@);
        }
        None
    }

    /// The index of the state of `account` in pool `pid`, added empty where
    /// it did not exist.
    fn account_slot(&mut self, pid: u128, account: &String) -> (j: usize)
        requires
            old(self)@.wf(),
            (pid as int) < old(self)@.pools.len(),
        ensures
            final(self)@.wf(),
            final(self).owner == old(self).owner,
            final(self).pool_info == old(self).pool_info,
            j < final(self).accounts.len(),
            final(self)@.accounts[j as int] == old(self)@.account(pid, account@),
            slot(final(self)@.accounts, pid, account@) == j,
            forall|v: AccountView|
                put_account(final(self)@.accounts, pid, account@, v) == put_account(
                    old(self)@.accounts,
                    pid,
                    account@,
                    v,
                ),
    {
        match self.find_account(pid, account) {
            Some(j) => {
                assert forall|v: AccountView|
                    put_account(self@.accounts, pid, account@, v) == put_account(
                        self@.accounts,
                        pid,
                        account@,
                        v,
                    ) by {}
                j
            },
            None => {
                let ghost s0 = self@;
                let e = AccountState {
                    pid,
                    account: copy_string(account),
                    is_pool_user: false,
                    is_whitelisted: false,
                    positions: Vec::new(),
                    staked: 0,
                    borrowed: 0,
                };
                assert(e@ == empty_account(pid, account@)) by {
                    assert(e.positions@ =~= Seq::<UserInfo>::empty());
                }
                self.accounts.push(e);
                let j = self.accounts.len() - 1;
                proof {
                    assert(self@.accounts =~= s0.accounts.push(e@));
                    lemma_put_wf(s0, pid, s0.pools[pid as int], account@, e@);
                    assert(s0.put(pid, s0.pools[pid as int], account@, e@).pools =~= s0.pools);
                    assert(self@ == s0.put(pid, s0.pools[pid as int], account@, e@));
                    lemma_slot_at(self@.accounts, pid, account@, j as int);
                    assert forall|v: AccountView|
                        put_account(self@.accounts, pid, account@, v) == put_account(
                            s0.accounts,
                            pid,
                            account@,
                            v,
                        ) by {
                        assert(self@.accounts.update(j as int, v) =~= s0.accounts.push(v));
                    }
                }
                j
            },
        }
    }

    /// Pauses or resumes pool `pid`.
    pub fn set_pool_paused(&mut self, caller: &String, pid: u128, flag: bool) -> (r: Result<
        (),
        PoolError,
    >)
        requires
            old(self)@.valid(),
        ensures
            final(self)@.valid(),
            match r {
                Ok(_) => admin_check(old(self)@, caller@, pid) is None && final(self)@ == (
                ContractView {
                    pools: old(self)@.pools.update(
                        pid as int,
                        PoolInfo { paused: flag, ..old(self)@.pools[pid as int] },
                    ),
                    ..old(self)@
                }),
                Err(e) => admin_check(old(self)@, caller@, pid) == Some(e) && *final(self) == *old(self),
            },
    {
        if !self.is_owner(caller) {
            return Err(PoolError::CallerNotAllowed);
        }
        if pid >= self.pool_info.len() as u128 {
            return Err(PoolError::UnknownPool);
        }
        let ghost s0 = self@;
        self.pool_info[pid as usize].paused = flag;
        proof {
            assert(self@.pools =~= s0.pools.update(
                pid as int,
                PoolInfo { paused: flag, ..s0.pools[pid as int] },
            ));
        }
        Ok(())
    }

    /// Sets whether `user` may borrow from loan pool `pid`.
    pub fn whitelist(&mut self, caller: &String, pid: u128, user: String, status: bool) -> (r: Result<
        (),
        PoolError,
    >)
        requires
            old(self)@.valid(),
        ensures
            final(self)@.valid(),
            match r {
                Ok(_) => whitelist_check(old(self)@, caller@, pid) is None && final(self)@ == old(self)@.put(
                    pid,
                    old(self)@.pools[pid as int],
                    user@,
                    AccountView { is_whitelisted: status, ..old(self)@.account(pid, user@) },
                ),
                Err(e) => whitelist_check(old(self)@, caller@, pid) == Some(e) && *final(self)
                    == *old(self),
            },
    {
        if !self.is_owner(caller) {
            return Err(PoolError::CallerNotAllowed);
        }
        if pid >= self.pool_info.len() as u128 {
            return Err(PoolError::UnknownPool);
        }
        if self.pool_info[pid as usize].pool_type != PoolType::Loan {
            return Err(PoolError::NotLoanPool);
        }
        let ghost s0 = self@;
        let j = self.account_slot(pid, &user);
        let ghost s1 = self@;
        self.accounts[j].is_whitelisted = status;
        proof {
            let v = AccountView { is_whitelisted: status, ..s0.account(pid, user@) };
            assert(self@.accounts =~= s1.accounts.update(j as int, v));
            assert(s0.pools.update(pid as int, s0.pools[pid as int]) =~= s0.pools);
            lemma_put_wf(s0, pid, s0.pools[pid as int], user@, v);
            assert(self@ == s0.put(pid, s0.pools[pid as int], user@, v));
        }
        Ok(())
    }

    /// Appends a new pool configured by `pool_info`, with empty funds and no
    /// users. Unless both the declared `pool_type` and the type that
    /// `pool_info` gives the pool are `Loan`, the deposit window must end
    /// after it starts. The utilisation ceiling must be on the 0 to 100
    /// scale.
    pub fn create_pool(&mut self, caller: &String, pool_info: PoolInfo, pool_type: PoolType) -> (r:
        Result<(), PoolError>)
        requires
            old(self)@.valid(),
        ensures
            final(self)@.valid(),
            match r {
                Ok(_) => create_check(old(self)@, caller@, pool_info, pool_type) is None && final(self)@ == (ContractView {
                    pools: old(self)@.pools.push(created_pool(pool_info)),
                    ..old(self)@
                }),
                Err(e) => create_check(old(self)@, caller@, pool_info, pool_type) == Some(e)
                    && *final(self) == *old(self),
            },
    {
        if !self.is_owner(caller) {
            return Err(PoolError::CallerNotAllowed);
        }
        if pool_type != PoolType::Loan || pool_info.pool_type != PoolType::Loan {
            if pool_info.deposit_limiters.start_time >= pool_info.deposit_limiters.end_time {
                return Err(PoolError::EndBeforeStart);
            }
        }
        if pool_info.deposit_limiters.max_utilisation > 100 {
            return Err(PoolError::UtilisationOutOfScale);
        }
        let ghost s0 = self@;
        let ghost info = pool_info;
        let mut t = pool_info;
        t.funds.balance = 0;
        t.funds.loaned_balance = 0;
        t.unique_users = 0;
        assert(t == created_pool(info));
        self.pool_info.push(t);
        proof {
            assert(self@.pools =~= s0.pools.push(created_pool(info)));
            let n = s0.pools.len();
            assert forall|q: u128| (q as int) < self@.pools.len() implies #[trigger] self@.pools[
                q as int].unique_users == count_users(self@.accounts, q) by {
                if q as int == n {
                    lemma_count_absent(self@.accounts, q);
                }
            }
        }
        Ok(())
    }

    /// Reconfigures pool `pid` from `new_pool_info`, keeping its funds, its
    /// user count and its underlying token. The utilisation ceiling must be
    /// on the 0 to 100 scale, and a pool with loans outstanding cannot
    /// become a staking pool.
    pub fn edit_pool(&mut self, caller: &String, pid: u128, new_pool_info: PoolInfo) -> (r: Result<
        (),
        PoolError,
    >)
        requires
            old(self)@.valid(),
        ensures
            final(self)@.valid(),
            match r {
                Ok(_) => edit_check(old(self)@, caller@, pid, new_pool_info) is None && final(self)@ == (
                ContractView {
                    pools: old(self)@.pools.update(
                        pid as int,
                        edited_pool(old(self)@.pools[pid as int], new_pool_info),
                    ),
                    ..old(self)@
                }),
                Err(e) => edit_check(old(self)@, caller@, pid, new_pool_info) == Some(e) && *final(self) == *old(self),
            },
    {
        if !self.is_owner(caller) {
            return Err(PoolError::CallerNotAllowed);
        }
        if pid >= self.pool_info.len() as u128 {
            return Err(PoolError::UnknownPool);
        }
        let i = pid as usize;
        if new_pool_info.deposit_limiters.max_utilisation > 100 {
            return Err(PoolError::UtilisationOutOfScale);
        }
        if new_pool_info.pool_type == PoolType::Staking && self.pool_info[i].funds.loaned_balance > 0 {
            return Err(PoolError::LoansOutstanding);
        }
        let ghost s0 = self@;
        let ghost info = new_pool_info;
        let mut t = new_pool_info;
        t.funds = self.pool_info[i].funds;
        t.unique_users = self.pool_info[i].unique_users;
        t.token_info.token = copy_string(&self.pool_info[i].token_info.token);
        assert(t == edited_pool(s0.pools[pid as int], info));
        self.pool_info[i] = t;
        proof {
            assert(self@.pools =~= s0.pools.update(pid as int, edited_pool(s0.pools[pid as int], info)));
        }
        Ok(())
    }

    /// Sends `amount` of `token` held by the ledger to the ledger's own
    /// account.
    pub fn recover_token(&self, caller: &String, token: String, amount: u128) -> (r: Result<
        Vec<Action>,
        PoolError,
    >)
        ensures
            match r {
                Ok(acts) => caller@ == self@.owner && actions_view(acts@) == seq![
                    ActionView::Transfer { token: token@, receiver: self@.owner, amount },
                ],
                Err(e) => caller@ != self@.owner && e == PoolError::CallerNotAllowed,
            },
    {
        if !self.is_owner(caller) {
            return Err(PoolError::CallerNotAllowed);
        }
        let mut acts: Vec<Action> = Vec::new();
        acts.push(Action::Transfer { token, receiver: copy_string(&self.owner), amount });
        assert(actions_view(acts@) =~= seq![
            ActionView::Transfer { token: token@, receiver: self@.owner, amount },
        ]);
        Ok(acts)
    }

    /// Records a deposit of `amount` of `token_id` by `staker` into pool
    /// `pid` at time `now`, and asks the pool's claim token to mint as much
    /// to the staker.
    pub fn internal_deposit_and_stake(
        &mut self,
        now: u64,
        staker: String,
        pid: u128,
        token_id: String,
        amount: u128,
    ) -> (r: Result<Vec<Action>, PoolError>)
        requires
            old(self)@.valid(),
        ensures
            final(self)@.valid(),
            match r {
                Ok(acts) => deposit_check(old(self)@, now, staker@, pid, token_id@, amount) is None
                    && final(self)@ == deposit_effect(old(self)@, now, staker@, pid, amount)
                    && actions_view(acts@) == seq![
                    ActionView::Mint {
                        token: old(self)@.pools[pid as int].token_info.collateral_token@,
                        account: staker@,
                        amount,
                    },
                ],
                Err(e) => deposit_check(old(self)@, now, staker@, pid, token_id@, amount) == Some(e)
                    && *final(self) == *old(self),
            },
    {
        if pid >= self.pool_info.len() as u128 {
            return Err(PoolError::UnknownPool);
        }
        let i = pid as usize;
        if self.pool_info[i].paused {
            return Err(PoolError::PoolPaused);
        }
        if self.pool_info[i].token_info.token != token_id {
            return Err(PoolError::InvalidToken);
        }
        let lim = self.pool_info[i].deposit_limiters;
        if self.pool_info[i].pool_type == PoolType::Staking {
            if !(now >= lim.start_time && now <= lim.end_time) {
                return Err(PoolError::DepositsDisabled);
            }
        }
        if amount > lim.limit_per_user {
            return Err(PoolError::ExceedsLimitPerUser);
        }
        let balance = self.pool_info[i].funds.balance;
        if balance > u128::MAX - amount {
            return Err(PoolError::Overflow);
        }
        if balance + amount > lim.capacity {
            return Err(PoolError::CapacityReached);
        }
        let ghost s0 = self@;
        let staked: u128 = match self.find_account(pid, &staker) {
            Some(j) => self.accounts[j].staked,
            None => 0,
        };
        if staked > u128::MAX - amount {
            return Err(PoolError::Overflow);
        }
        let j = self.account_slot(pid, &staker);
        let ghost s1 = self@;
        let was_user = self.accounts[j].is_pool_user;
        proof {
            lemma_count_le_len(s1.accounts, pid);
            if !was_user {
                assert(s1.accounts[j as int].positions.len() == 0);
            }
        }
        self.accounts[j].positions.push(
            UserInfo { transaction_type: TransactionType::Staking, amount, time: now, paid_out: 0 },
        );
        self.accounts[j].staked = staked + amount;
        self.accounts[j].is_pool_user = true;
        self.pool_info[i].funds.balance = balance + amount;
        if !was_user {
            self.pool_info[i].unique_users = self.pool_info[i].unique_users + 1;
        }
        proof {
            let e = deposit_effect(s0, now, staker@, pid, amount);
            let a = s0.account(pid, staker@);
            let v = AccountView {
                is_pool_user: true,
                positions: a.positions.push(
                    UserInfo {
                        transaction_type: TransactionType::Staking,
                        amount,
                        time: now,
                        paid_out: 0,
                    },
                ),
                staked: (a.staked + amount) as u128,
                ..a
            };
            assert(self@.accounts =~= s1.accounts.update(j as int, v));
            assert(self@.pools =~= e.pools);
            lemma_put_wf(s0, pid, e.pools[pid as int], staker@, v);
            assert(self@ == e);
        }
        let mut acts: Vec<Action> = Vec::new();
        acts.push(
            Action::Mint {
                token: copy_string(&self.pool_info[i].token_info.collateral_token),
                account: staker,
                amount,
            },
        );
        assert(actions_view(acts@) =~= seq![
            ActionView::Mint {
                token: s0.pools[pid as int].token_info.collateral_token@,
                account: staker@,
                amount,
            },
        ]);
        Ok(acts)
    }

    /// `value` as a percentage of `of`, rounded down; zero when `of` is zero.
    pub fn _calculate_percentage(&self, value: u128, of: u128) -> (r: u128)
        requires
            value * 100 <= u128::MAX,
        ensures
            r == percentage(value as int, of as int),
    {
        if of == 0 {
            0
        } else {
            value * 100 / of
        }
    }

    /// The share of pool `pid`'s balance that is on loan, in percent, capped
    /// at 100; zero for an empty pool.
    pub fn get_pool_utilisation(&self, pid: u128) -> (r: Result<u128, PoolError>)
        ensures
            r == (if pid >= self@.pools.len() {
                Err(PoolError::UnknownPool)
            } else {
                utilisation_result(self@.pools[pid as int])
            }),
            r matches Ok(u) ==> u <= 100,
    {
        if pid >= self.pool_info.len() as u128 {
            return Err(PoolError::UnknownPool);
        }
        let funds = self.pool_info[pid as usize].funds;
        if funds.balance == 0 {
            return Ok(0);
        }
        if funds.loaned_balance > u128::MAX / 100 {
            return Err(PoolError::Overflow);
        }
        let mut utilisation = self._calculate_percentage(funds.loaned_balance, funds.balance);
        if utilisation > 100 {
            utilisation = 100;
        }
        Ok(utilisation)
    }

    /// The interest that `amount` of position `index` of `user` in pool `pid`
    /// has earned by time `now`.
    pub fn calculate_interest(&self, now: u64, user: &String, pid: u128, index: usize, amount: u128) -> (r:
        Result<u128, PoolError>)
        requires
            self@.wf(),
        ensures
            r == interest_result(self@, now, user@, pid, index as int, amount),
    {
        if pid >= self.pool_info.len() as u128 {
            return Err(PoolError::UnknownPool);
        }
        let j = match self.find_account(pid, user) {
            Some(j) => j,
            None => return Err(PoolError::UnknownAccount),
        };
        if index >= self.accounts[j].positions.len() {
            return Err(PoolError::UnknownPosition);
        }
        let pos = self.accounts[j].positions[index];
        if amount > pos.amount {
            return Err(PoolError::AmountGreaterThanTransaction);
        }
        let pool = &self.pool_info[pid as usize];
        let end_time = pool.deposit_limiters.end_time;
        if pool.pool_type == PoolType::Staking && now < end_time {
            return Ok(0);
        }
        let utilisation: u128 = if pool.pool_type == PoolType::Loan {
            match self.get_pool_utilisation(pid) {
                Ok(u) => u,
                Err(e) => return Err(e),
            }
        } else {
            100
        };
        let start: u64 = if pool.pool_type == PoolType::Loan {
            pos.time
        } else {
            end_time
        };
        if now < start {
            return Err(PoolError::Underflow);
        }
        match checked_interest(amount, pool.apy, utilisation, (now - start) as u128) {
            Some(x) => Ok(x),
            None => Err(PoolError::Overflow),
        }
    }

    /// The reward that settlement owes on `amount` of position `index` of
    /// `user` in pool `pid` at time `now`, `duration` after the deposit
    /// window ended: on a staking pool, the interest over at most the pool's
    /// reward window; on a loan pool, `calculate_interest`.
    pub fn reward_for(
        &self,
        now: u64,
        user: &String,
        pid: u128,
        index: usize,
        duration: u64,
        amount: u128,
    ) -> (r: Result<u128, PoolError>)
        requires
            self@.wf(),
        ensures
            r == reward_result(self@, now, user@, pid, index as int, duration, amount),
    {
        if pid >= self.pool_info.len() as u128 {
            return Err(PoolError::UnknownPool);
        }
        let pool = &self.pool_info[pid as usize];
        let lim = pool.deposit_limiters;
        if pool.pool_type != PoolType::Staking || now < lim.end_time {
            return self.calculate_interest(now, user, pid, index, amount);
        }
        let j = match self.find_account(pid, user) {
            Some(j) => j,
            None => return Err(PoolError::UnknownAccount),
        };
        if index >= self.accounts[j].positions.len() {
            return Err(PoolError::UnknownPosition);
        }
        if amount > self.accounts[j].positions[index].amount {
            return Err(PoolError::AmountGreaterThanTransaction);
        }
        let elapsed: u64 = if duration > lim.duration {
            lim.duration
        } else {
            duration
        };
        match checked_interest(amount, pool.apy, 100, elapsed as u128) {
            Some(x) => Ok(x),
            None => Err(PoolError::Overflow),
        }
    }

    /// Pays `receiver` the reward that `amount` of its position `index` in
    /// pool `pid` has earned by `now`, `duration` after the deposit window
    /// ended (on a staking pool, counted over at most the pool's reward
    /// window), less what the position was already paid, and records the
    /// payment. Returns the sum paid.
    pub fn transfer_rewards(
        &mut self,
        now: u64,
        receiver: &String,
        pid: u128,
        index: usize,
        duration: u64,
        amount: u128,
    ) -> (r: Result<(u128, Vec<Action>), PoolError>)
        requires
            old(self)@.wf(),
        ensures
            final(self)@.wf(),
            final(self)@.pools == old(self)@.pools,
            match r {
                Ok((claim, acts)) => match reward_result(
                    old(self)@,
                    now,
                    receiver@,
                    pid,
                    index as int,
                    duration,
                    amount,
                ) {
                    Ok(reward) => {
                        let pos = old(self)@.account(pid, receiver@).positions[index as int];
                        &&& claim == claimable(reward, pos.paid_out)
                        &&& final(self)@ == old(self)@.rewarded(pid, receiver@, index as int, claim)
                        &&& actions_view(acts@) == seq![
                            ActionView::Transfer {
                                token: old(self)@.pools[pid as int].token_info.token@,
                                receiver: receiver@,
                                amount: claim,
                            },
                        ]
                    },
                    Err(_) => false,
                },
                Err(e) => reward_result(old(self)@, now, receiver@, pid, index as int, duration, amount)
                    == Err::<u128, PoolError>(e) && *final(self) == *old(self),
            },
    {
        if pid >= self.pool_info.len() as u128 {
            return Err(PoolError::UnknownPool);
        }
        let reward = match self.reward_for(now, receiver, pid, index, duration, amount) {
            Ok(x) => x,
            Err(e) => return Err(e),
        };
        let ghost s0 = self@;
        let i = pid as usize;
        let j = match self.find_account(pid, receiver) {
            Some(j) => j,
            None => return Err(PoolError::UnknownAccount),
        };
        let paid = self.accounts[j].positions[index].paid_out;
        let claim: u128 = if reward > paid {
            reward - paid
        } else {
            0
        };
        self.accounts[j].positions[index].paid_out = paid + claim;
        proof {
            let a = s0.account(pid, receiver@);
            let pos = a.positions[index as int];
            let v = with_position(
                a,
                index as int,
                UserInfo { paid_out: (pos.paid_out + claim) as u128, ..pos },
            );
            assert(v.positions =~= self@.accounts[j as int].positions);
            assert(self@.accounts =~= s0.accounts.update(j as int, v));
            assert(s0.pools.update(pid as int, s0.pools[pid as int]) =~= s0.pools);
            lemma_put_wf(s0, pid, s0.pools[pid as int], receiver@, v);
            assert(self@ == s0.put(pid, s0.pools[pid as int], receiver@, v));
        }
        assert(self.pool_info@[i as int] == s0.pools[pid as int]);
        let token = copy_string(&self.pool_info[i].token_info.token);
        let mut acts: Vec<Action> = Vec::new();
        acts.push(Action::Transfer { token, receiver: copy_string(receiver), amount: claim });
        assert(actions_view(acts@) =~= seq![
            ActionView::Transfer {
                token: s0.pools[pid as int].token_info.token@,
                receiver: receiver@,
                amount: claim,
            },
        ]);
        Ok((claim, acts))
    }

    /// Removes position `index` of `account` in pool `pid` where its
    /// principal is zero, by moving the account's last position into its
    /// place; where no position is left, the account stops counting as a
    /// user of the pool.
    pub fn _delete_stake_if_empty(&mut self, account: &String, pid: u128, index: usize)
        requires
            old(self)@.wf(),
            (pid as int) < old(self)@.pools.len(),
            slot(old(self)@.accounts, pid, account@) >= 0,
            index < old(self)@.account(pid, account@).positions.len(),
        ensures
            final(self)@.wf(),
            final(self)@ == old(self)@.cleaned_up(pid, account@, index as int),
    {
        let ghost s0 = self@;
        let n = self.pool_info.len();
        assert(pid < n);
        let i = pid as usize;
        let j = match self.find_account(pid, account) {
            Some(j) => j,
            None => return,
        };
        if self.accounts[j].positions[index].amount == 0 {
            self.accounts[j].positions.swap_remove(index);
        }
        let now_empty = self.accounts[j].positions.len() == 0;
        proof {
            let ps = cleaned(s0.account(pid, account@).positions, index as int);
            assert(ps =~= self@.accounts[j as int].positions);
        }
        if now_empty {
            proof {
                lemma_count_ge_mark(s0.accounts, j as int, pid);
                assert(user_mark(s0.accounts[j as int], pid) == 1);
                assert(s0.pools[pid as int].unique_users == count_users(s0.accounts, pid));
            }
            self.accounts[j].is_pool_user = false;
            self.pool_info[i].unique_users = self.pool_info[i].unique_users - 1;
        }
        proof {
            let a = s0.account(pid, account@);
            let p = s0.pools[pid as int];
            let ps = cleaned(a.positions, index as int);
            let v = AccountView { positions: ps, is_pool_user: ps.len() > 0, ..a };
            let np = PoolInfo {
                unique_users: if ps.len() == 0 {
                    (p.unique_users - 1) as u128
                } else {
                    p.unique_users
                },
                ..p
            };
            assert(ps =~= self@.accounts[j as int].positions);
            assert(self@.accounts =~= s0.accounts.update(j as int, v));
            assert(self@.pools =~= s0.pools.update(pid as int, np));
            lemma_put_wf(s0, pid, np, account@, v);
            assert(self@ == s0.put(pid, np, account@, v));
        }
    }

    /// Takes `principal` off position `index` of `account` in pool `pid`,
    /// stamps it with `now`, and lowers the account's totals and the pool's
    /// funds by the given sums.
    fn settle_principal(
        &mut self,
        account: &String,
        pid: u128,
        index: usize,
        principal: u128,
        now: u64,
        staked: u128,
        borrowed: u128,
        balance: u128,
        loaned: u128,
    )
        requires
            old(self)@.wf(),
            (pid as int) < old(self)@.pools.len(),
            slot(old(self)@.accounts, pid, account@) >= 0,
            index < old(self)@.account(pid, account@).positions.len(),
            principal <= old(self)@.account(pid, account@).positions[index as int].amount,
            staked <= old(self)@.account(pid, account@).staked,
            borrowed <= old(self)@.account(pid, account@).borrowed,
            balance <= old(self)@.pools[pid as int].funds.balance,
            loaned <= old(self)@.pools[pid as int].funds.loaned_balance,
        ensures
            final(self)@.wf(),
            final(self)@ == old(self)@.settled(
                pid,
                account@,
                index as int,
                principal,
                now,
                staked,
                borrowed,
                balance,
                loaned,
            ),
    {
        let ghost s0 = self@;
        let n = self.pool_info.len();
        assert(pid < n);
        let i = pid as usize;
        let j = match self.find_account(pid, account) {
            Some(j) => j,
            None => return,
        };
        let pos = self.accounts[j].positions[index];
        self.accounts[j].positions[index] = UserInfo { amount: pos.amount - principal, time: now, ..pos };
        self.accounts[j].staked = self.accounts[j].staked - staked;
        self.accounts[j].borrowed = self.accounts[j].borrowed - borrowed;
        self.pool_info[i].funds.balance = self.pool_info[i].funds.balance - balance;
        self.pool_info[i].funds.loaned_balance = self.pool_info[i].funds.loaned_balance - loaned;
        proof {
            let e = s0.settled(pid, account@, index as int, principal, now, staked, borrowed, balance, loaned);
            let a = s0.account(pid, account@);
            let pos0 = a.positions[index as int];
            let v = AccountView {
                positions: a.positions.update(
                    index as int,
                    UserInfo { amount: (pos0.amount - principal) as u128, time: now, ..pos0 },
                ),
                staked: (a.staked - staked) as u128,
                borrowed: (a.borrowed - borrowed) as u128,
                ..a
            };
            assert(v.positions =~= self@.accounts[j as int].positions);
            assert(self@.accounts =~= s0.accounts.update(j as int, v));
            assert(self@.pools =~= e.pools);
            lemma_put_wf(s0, pid, e.pools[pid as int], account@, v);
            assert(self@ == e);
        }
    }

    /// Withdraws `amount` of position `index` of `caller` in pool `pid` at
    /// once, without settling rewards or checking the pool's limits: the
    /// claim token is burnt, the principal sent back and taken off the
    /// position, and an emptied position removed. The pool's balance and the
    /// account's total are left as they are: lowering the balance without
    /// the utilisation check could take it below what is on loan.
    pub fn emergency_withdraw(
        &mut self,
        now: u64,
        caller: &String,
        pid: u128,
        index: usize,
        amount: u128,
    ) -> (r: Result<Vec<Action>, PoolError>)
        requires
            old(self)@.valid(),
        ensures
            final(self)@.valid(),
            match r {
                Ok(acts) => emergency_check(old(self)@, caller@, pid, index as int, amount) is None
                    && final(self)@ == old(self)@.settled(
                    pid,
                    caller@,
                    index as int,
                    amount,
                    now,
                    0,
                    0,
                    0,
                    0,
                ).cleaned_up(pid, caller@, index as int) && actions_view(acts@) == principal_actions(
                    old(self)@.pools[pid as int],
                    caller@,
                    amount,
                ),
                Err(e) => emergency_check(old(self)@, caller@, pid, index as int, amount) == Some(e)
                    && *final(self) == *old(self),
            },
    {
        if pid >= self.pool_info.len() as u128 {
            return Err(PoolError::UnknownPool);
        }
        let j = match self.find_account(pid, caller) {
            Some(j) => j,
            None => return Err(PoolError::UnknownPosition),
        };
        if index >= self.accounts[j].positions.len() {
            return Err(PoolError::UnknownPosition);
        }
        if amount > self.accounts[j].positions[index].amount {
            return Err(PoolError::Underflow);
        }
        let ghost s0 = self@;
        let acts = self.principal_actions(pid, caller, amount);
        self.settle_principal(caller, pid, index, amount, now, 0, 0, 0, 0);
        proof {
            let a = s0.account(pid, caller@);
            let pos = a.positions[index as int];
            let p = s0.pools[pid as int];
            let v = AccountView {
                positions: a.positions.update(
                    index as int,
                    UserInfo { amount: (pos.amount - amount) as u128, time: now, ..pos },
                ),
                staked: (a.staked - 0) as u128,
                borrowed: (a.borrowed - 0) as u128,
                ..a
            };
            let np = PoolInfo {
                funds: Funds {
                    balance: (p.funds.balance - 0) as u128,
                    loaned_balance: (p.funds.loaned_balance - 0) as u128,
                },
                ..p
            };
            lemma_put_twice(s0, pid, np, caller@, v, np, v);
        }
        self._delete_stake_if_empty(caller, pid, index);
        proof {
            let p = s0.pools[pid as int];
            let e = s0.settled(pid, caller@, index as int, amount, now, 0, 0, 0, 0).cleaned_up(
                pid,
                caller@,
                index as int,
            );
            assert(e.pools[pid as int].funds == p.funds);
            assert(e.pools[pid as int].pool_type == p.pool_type);
            assert(e.pools[pid as int].deposit_limiters == p.deposit_limiters);
            if s0.funds_sound() {
                assert forall|q: int| 0 <= q < e.pools.len() implies {
                    &&& e.pools[q].funds.loaned_balance <= e.pools[q].funds.balance
                    &&& e.pools[q].pool_type == PoolType::Staking ==> e.pools[q].funds.loaned_balance == 0
                    &&& e.pools[q].deposit_limiters.max_utilisation <= 100
                } by {
                    if q != pid as int {
                        assert(e.pools[q] == s0.pools[q]);
                    }
                }
            }
        }
        Ok(acts)
    }

    /// Withdraws `amount` of deposit `index` of `caller` in pool `pid` at
    /// time `now`. Before the pool's deposit window ends this is an
    /// emergency withdrawal; after it, the deposit must have served its lock
    /// (staking pools) or leave the pool under its utilisation ceiling (loan
    /// pools), the reward owed is paid first, and an emptied position is
    /// removed.
    pub fn withdraw(&mut self, now: u64, caller: &String, pid: u128, index: usize, amount: u128) -> (r:
        Result<Vec<Action>, PoolError>)
        requires
            old(self)@.valid(),
        ensures
            final(self)@.valid(),
            match r {
                Ok(acts) => withdraw_check(old(self)@, now, caller@, pid, index as int, amount) is None
                    && if now < old(self)@.pools[pid as int].deposit_limiters.end_time {
                    &&& final(self)@ == old(self)@.settled(
                        pid,
                        caller@,
                        index as int,
                        amount,
                        now,
                        0,
                        0,
                        0,
                        0,
                    ).cleaned_up(pid, caller@, index as int)
                    &&& actions_view(acts@) == principal_actions(
                        old(self)@.pools[pid as int],
                        caller@,
                        amount,
                    )
                } else {
                    &&& final(self)@ == withdraw_effect(
                        old(self)@,
                        now,
                        caller@,
                        pid,
                        index as int,
                        amount,
                    )
                    &&& actions_view(acts@) == seq![
                        ActionView::Transfer {
                            token: old(self)@.pools[pid as int].token_info.token@,
                            receiver: caller@,
                            amount: reward_due(
                                old(self)@,
                                now,
                                caller@,
                                pid,
                                index as int,
                                since_end(old(self)@, pid, now),
                                amount,
                            ),
                        },
                    ] + principal_actions(old(self)@.pools[pid as int], caller@, amount)
                },
                Err(e) => withdraw_check(old(self)@, now, caller@, pid, index as int, amount) == Some(
                    e,
                ) && *final(self) == *old(self),
            },
    {
        if pid >= self.pool_info.len() as u128 {
            return Err(PoolError::UnknownPool);
        }
        let i = pid as usize;
        let j = match self.find_account(pid, caller) {
            Some(j) => j,
            None => return Err(PoolError::UnknownAccount),
        };
        let lim = self.pool_info[i].deposit_limiters;
        if now < lim.end_time {
            return self.emergency_withdraw(now, caller, pid, index, amount);
        }
        if index >= self.accounts[j].positions.len() {
            return Err(PoolError::UnknownPosition);
        }
        let pos = self.accounts[j].positions[index];
        if pos.transaction_type != TransactionType::Staking {
            return Err(PoolError::NotStaked);
        }
        if amount > pos.amount {
            return Err(PoolError::AmountGreaterThanTransaction);
        }
        let funds = self.pool_info[i].funds;
        if self.pool_info[i].pool_type == PoolType::Staking {
            if lim.end_time > u64::MAX - lim.duration {
                return Err(PoolError::Overflow);
            }
            if now < lim.end_time + lim.duration {
                return Err(PoolError::WithdrawingTooEarly);
            }
        } else {
            if funds.loaned_balance > u128::MAX - amount {
                return Err(PoolError::Overflow);
            }
            if funds.balance < funds.loaned_balance + amount {
                return Err(PoolError::HighUtilisation);
            }
            if funds.balance - amount != 0 && funds.loaned_balance > u128::MAX / 100 {
                return Err(PoolError::Overflow);
            }
            let projected_utilisation = if funds.balance - amount == 0 {
                0
            } else {
                self._calculate_percentage(funds.loaned_balance, funds.balance - amount)
            };
            if projected_utilisation >= lim.max_utilisation {
                return Err(PoolError::UtilisationMaxedOut);
            }
        }
        match self.reward_for(now, caller, pid, index, now - lim.end_time, amount) {
            Ok(_) => {},
            Err(e) => return Err(e),
        }
        if self.accounts[j].staked < amount {
            return Err(PoolError::Underflow);
        }
        if funds.balance < amount {
            return Err(PoolError::Underflow);
        }
        let ghost s0 = self@;
        let (claim, mut acts) = match self.transfer_rewards(now, caller, pid, index, now - lim.end_time, amount) {
            Ok(x) => x,
            Err(e) => return Err(e),
        };
        let ghost s1 = self@;
        proof {
            let a = s0.account(pid, caller@);
            let pos_before = a.positions[index as int];
            let v1 = with_position(a, index as int, UserInfo { paid_out: (pos_before.paid_out + claim) as u128, ..pos_before });
            lemma_put_twice(s0, pid, s0.pools[pid as int], caller@, v1, s0.pools[pid as int], v1);
        }
        let mut more = self.principal_actions(pid, caller, amount);
        self.settle_principal(caller, pid, index, amount, now, amount, 0, amount, 0);
        let ghost s2 = self@;
        proof {
            let a = s1.account(pid, caller@);
            let pos_now = a.positions[index as int];
            let p = s1.pools[pid as int];
            let v2 = AccountView {
                positions: a.positions.update(
                    index as int,
                    UserInfo { amount: (pos_now.amount - amount) as u128, time: now, ..pos_now },
                ),
                staked: (a.staked - amount) as u128,
                borrowed: (a.borrowed - 0) as u128,
                ..a
            };
            let np = PoolInfo {
                funds: Funds {
                    balance: (p.funds.balance - amount) as u128,
                    loaned_balance: (p.funds.loaned_balance - 0) as u128,
                },
                ..p
            };
            lemma_put_twice(s1, pid, np, caller@, v2, np, v2);
        }
        self._delete_stake_if_empty(caller, pid, index);
        acts.append(&mut more);
        proof {
            let e = withdraw_effect(s0, now, caller@, pid, index as int, amount);
            assert(self@ == e);
            assert(actions_view(acts@) =~= seq![
                ActionView::Transfer {
                    token: s0.pools[pid as int].token_info.token@,
                    receiver: caller@,
                    amount: claim,
                },
            ] + principal_actions(s0.pools[pid as int], caller@, amount));
            if s0.funds_sound() {
                let p = s0.pools[pid as int];
                assert(e.pools[pid as int].funds.balance == p.funds.balance - amount);
                assert(e.pools[pid as int].funds.loaned_balance == p.funds.loaned_balance);
                assert(e.pools[pid as int].pool_type == p.pool_type);
                assert forall|q: int| 0 <= q < e.pools.len() implies {
                    &&& e.pools[q].funds.loaned_balance <= e.pools[q].funds.balance
                    &&& e.pools[q].pool_type == PoolType::Staking ==> e.pools[q].funds.loaned_balance == 0
                    &&& e.pools[q].deposit_limiters.max_utilisation <= 100
                } by {
                    if q != pid as int {
                        assert(e.pools[q] == s0.pools[q]);
                    }
                }
            }
        }
        Ok(acts)
    }

    /// Records the repayment of `repay_amount` of loan `index` of `borrower`
    /// in pool `pid`, paid for by a transfer of `amount` of `token_id` that
    /// must cover the principal and the interest owed on it. The account's
    /// borrowed total and the pool's loaned balance are lowered by the whole
    /// `amount`.
    pub fn internal_repay(
        &mut self,
        now: u64,
        borrower: &String,
        pid: u128,
        index: usize,
        token_id: &String,
        amount: u128,
        repay_amount: u128,
    ) -> (r: Result<(), PoolError>)
        requires
            old(self)@.valid(),
        ensures
            final(self)@.valid(),
            match r {
                Ok(_) => repay_check(
                    old(self)@,
                    now,
                    borrower@,
                    pid,
                    index as int,
                    token_id@,
                    amount,
                    repay_amount,
                ) is None && final(self)@ == old(self)@.settled(
                    pid,
                    borrower@,
                    index as int,
                    repay_amount,
                    now,
                    0,
                    amount,
                    0,
                    amount,
                ).cleaned_up(pid, borrower@, index as int),
                Err(e) => repay_check(
                    old(self)@,
                    now,
                    borrower@,
                    pid,
                    index as int,
                    token_id@,
                    amount,
                    repay_amount,
                ) == Some(e) && *final(self) == *old(self),
            },
    {
        let interest = match self.calculate_interest(now, borrower, pid, index, repay_amount) {
            Ok(x) => x,
            Err(e) => return Err(e),
        };
        let n = self.pool_info.len();
        assert(pid < n);
        let i = pid as usize;
        let j = match self.find_account(pid, borrower) {
            Some(j) => j,
            None => return Err(PoolError::UnknownAccount),
        };
        if self.pool_info[i].token_info.token != *token_id {
            return Err(PoolError::InvalidToken);
        }
        if self.pool_info[i].pool_type != PoolType::Loan {
            return Err(PoolError::NotLoanPool);
        }
        if self.accounts[j].positions[index].transaction_type != TransactionType::Borrow {
            return Err(PoolError::NotBorrowed);
        }
        if repay_amount > u128::MAX - interest {
            return Err(PoolError::Overflow);
        }
        if amount < repay_amount + interest {
            return Err(PoolError::InsufficientRepayment);
        }
        if self.accounts[j].borrowed < amount {
            return Err(PoolError::Underflow);
        }
        if self.pool_info[i].funds.loaned_balance < amount {
            return Err(PoolError::Underflow);
        }
        let ghost s0 = self@;
        self.settle_principal(borrower, pid, index, repay_amount, now, 0, amount, 0, amount);
        proof {
            let a = s0.account(pid, borrower@);
            let pos_now = a.positions[index as int];
            let p = s0.pools[pid as int];
            let v = AccountView {
                positions: a.positions.update(
                    index as int,
                    UserInfo { amount: (pos_now.amount - repay_amount) as u128, time: now, ..pos_now },
                ),
                staked: (a.staked - 0) as u128,
                borrowed: (a.borrowed - amount) as u128,
                ..a
            };
            let np = PoolInfo {
                funds: Funds {
                    balance: (p.funds.balance - 0) as u128,
                    loaned_balance: (p.funds.loaned_balance - amount) as u128,
                },
                ..p
            };
            lemma_put_twice(s0, pid, np, borrower@, v, np, v);
        }
        self._delete_stake_if_empty(borrower, pid, index);
        proof {
            let e = s0.settled(pid, borrower@, index as int, repay_amount, now, 0, amount, 0, amount).cleaned_up(
                pid,
                borrower@,
                index as int,
            );
            if s0.funds_sound() {
                let p = s0.pools[pid as int];
                assert(e.pools[pid as int].funds.balance == p.funds.balance);
                assert(e.pools[pid as int].funds.loaned_balance == p.funds.loaned_balance - amount);
                assert(e.pools[pid as int].pool_type == p.pool_type);
                assert forall|q: int| 0 <= q < e.pools.len() implies {
                    &&& e.pools[q].funds.loaned_balance <= e.pools[q].funds.balance
                    &&& e.pools[q].pool_type == PoolType::Staking ==> e.pools[q].funds.loaned_balance == 0
                    &&& e.pools[q].deposit_limiters.max_utilisation <= 100
                } by {
                    if q != pid as int {
                        assert(e.pools[q] == s0.pools[q]);
                    }
                }
            }
        }
        Ok(())
    }

    /// Pays the reward owed on the whole of deposit `index` of `caller` in
    /// quarterly-payout staking pool `pid`, once a full quarter of its
    /// reward window has passed. Returns the sum paid.
    pub fn claim_quarterly_payout(&mut self, now: u64, caller: &String, pid: u128, index: usize) -> (r:
        Result<(u128, Vec<Action>), PoolError>)
        requires
            old(self)@.valid(),
        ensures
            final(self)@.valid(),
            final(self)@.pools == old(self)@.pools,
            match r {
                Ok((claim, acts)) => {
                    let amount = old(self)@.account(pid, caller@).positions[index as int].amount;
                    &&& claim_check(old(self)@, now, caller@, pid, index as int) is None
                    &&& claim == reward_due(
                        old(self)@,
                        now,
                        caller@,
                        pid,
                        index as int,
                        claim_window(old(self)@.pools[pid as int], now),
                        amount,
                    )
                    &&& final(self)@ == old(self)@.rewarded(pid, caller@, index as int, claim)
                    &&& actions_view(acts@) == seq![
                        ActionView::Transfer {
                            token: old(self)@.pools[pid as int].token_info.token@,
                            receiver: caller@,
                            amount: claim,
                        },
                    ]
                },
                Err(e) => claim_check(old(self)@, now, caller@, pid, index as int) == Some(e)
                    && *final(self) == *old(self),
            },
    {
        if pid >= self.pool_info.len() as u128 {
            return Err(PoolError::UnknownPool);
        }
        let i = pid as usize;
        let j = match self.find_account(pid, caller) {
            Some(j) => j,
            None => return Err(PoolError::UnknownAccount),
        };
        if !self.pool_info[i].quarterly_payout {
            return Err(PoolError::QuarterlyPayoutDisabled);
        }
        if self.pool_info[i].pool_type != PoolType::Staking {
            return Err(PoolError::NotStakingPool);
        }
        let lim = self.pool_info[i].deposit_limiters;
        if now <= lim.end_time {
            return Err(PoolError::NotStarted);
        }
        let mut time_diff = now - lim.end_time;
        if time_diff > lim.duration {
            time_diff = lim.duration;
        }
        let quarters_passed = time_diff / QUARTER_DAY;
        if quarters_passed == 0 {
            return Err(PoolError::TooEarly);
        }
        if index >= self.accounts[j].positions.len() {
            return Err(PoolError::UnknownPosition);
        }
        let amount = self.accounts[j].positions[index].amount;
        self.transfer_rewards(now, caller, pid, index, time_diff, amount)
    }

    /// Handles a transfer of `amount` of `token_id` from `sender_id` whose
    /// message `msg` names what it is for: `staking:<pid>` deposits it into
    /// pool `pid` and returns 1, `borrow:<pid>:<index>:<repay_amount>`
    /// repays loan `index` in pool `pid` and returns 2. Any other message is
    /// rejected.
    pub fn ft_on_transfer(
        &mut self,
        now: u64,
        token_id: &String,
        sender_id: &String,
        amount: u128,
        msg: &str,
    ) -> (r: Result<(u128, Vec<Action>), PoolError>)
        requires
            old(self)@.valid(),
        ensures
            final(self)@.valid(),
            match parse_command(msg.spec_bytes()) {
                Err(e) => r == Err::<(u128, Vec<Action>), PoolError>(e) && *final(self) == *old(self),
                Ok(Command::Stake { pid }) => match r {
                    Ok((code, acts)) => code == 1 && deposit_check(
                        old(self)@,
                        now,
                        sender_id@,
                        pid,
                        token_id@,
                        amount,
                    ) is None && final(self)@ == deposit_effect(
                        old(self)@,
                        now,
                        sender_id@,
                        pid,
                        amount,
                    ) && actions_view(acts@) == seq![
                        ActionView::Mint {
                            token: old(self)@.pools[pid as int].token_info.collateral_token@,
                            account: sender_id@,
                            amount,
                        },
                    ],
                    Err(e) => deposit_check(old(self)@, now, sender_id@, pid, token_id@, amount)
                        == Some(e) && *final(self) == *old(self),
                },
                Ok(Command::Repay { pid, index, repay_amount }) => match r {
                    Ok((code, acts)) => code == 2 && acts@.len() == 0 && repay_check(
                        old(self)@,
                        now,
                        sender_id@,
                        pid,
                        index as int,
                        token_id@,
                        amount,
                        repay_amount,
                    ) is None && final(self)@ == old(self)@.settled(
                        pid,
                        sender_id@,
                        index as int,
                        repay_amount,
                        now,
                        0,
                        amount,
                        0,
                        amount,
                    ).cleaned_up(pid, sender_id@, index as int),
                    Err(e) => repay_check(
                        old(self)@,
                        now,
                        sender_id@,
                        pid,
                        index as int,
                        token_id@,
                        amount,
                        repay_amount,
                    ) == Some(e) && *final(self) == *old(self),
                },
            },
    {
        match parse_message(msg.as_bytes()) {
            Err(e) => Err(e),
            Ok(Command::Stake { pid }) => {
                match self.internal_deposit_and_stake(
                    now,
                    copy_string(sender_id),
                    pid,
                    copy_string(token_id),
                    amount,
                ) {
                    Ok(acts) => Ok((1, acts)),
                    Err(e) => Err(e),
                }
            },
            Ok(Command::Repay { pid, index, repay_amount }) => {
                match self.internal_repay(now, sender_id, pid, index, token_id, amount, repay_amount) {
                    Ok(()) => Ok((2, Vec::new())),
                    Err(e) => Err(e),
                }
            },
        }
    }

    /// The number of pools.
    pub fn total_pools(&self) -> (r: usize)
        ensures
            r == self@.pools.len(),
    {
        self.pool_info.len()
    }

    /// A copy of pool `pid`.
    pub fn pool_info(&self, pid: usize) -> (r: Result<PoolInfo, PoolError>)
        ensures
            match r {
                Ok(p) => pid < self@.pools.len() && p == self@.pools[pid as int],
                Err(e) => pid >= self@.pools.len() && e == PoolError::UnknownPool,
            },
    {
        if pid >= self.pool_info.len() {
            return Err(PoolError::UnknownPool);
        }
        Ok(self.pool_info[pid].copy())
    }

    /// Copies of the pools with ids from `from` up to, not including, `to`.
    pub fn get_pool_info(&self, from: u128, to: u128) -> (r: Result<Vec<PoolInfo>, PoolError>)
        ensures
            match r {
                Ok(v) => if from >= to {
                    v@.len() == 0
                } else {
                    to <= self@.pools.len() && v@ == self@.pools.subrange(from as int, to as int)
                },
                Err(e) => from < to && to > self@.pools.len() && e == PoolError::UnknownPool,
            },
    {
        let mut out: Vec<PoolInfo> = Vec::new();
        if from >= to {
            return Ok(out);
        }
        if to > self.pool_info.len() as u128 {
            return Err(PoolError::UnknownPool);
        }
        let mut k: usize = from as usize;
        while k < to as usize
            invariant
                from <= k <= to <= self@.pools.len(),
                out@ == self@.pools.subrange(from as int, k as int),
            decreases to - k,
        {
            out.push(self.pool_info[k].copy());
            proof {
                assert(out@ =~= self@.pools.subrange(from as int, k + 1));
            }
            k += 1;
        }
        Ok(out)
    }

    /// The number of positions of `user` in pool `pid`.
    pub fn total_stakes_of_user(&self, pid: u128, user: &String) -> (r: Result<usize, PoolError>)
        requires
            self@.wf(),
        ensures
            match r {
                Ok(n) => pid < self@.pools.len() && slot(self@.accounts, pid, user@) >= 0 && n
                    == self@.account(pid, user@).positions.len(),
                Err(e) => e == (if pid >= self@.pools.len() {
                    PoolError::UnknownPool
                } else {
                    PoolError::UnknownAccount
                }) && (pid >= self@.pools.len() || slot(self@.accounts, pid, user@) < 0),
            },
    {
        if pid >= self.pool_info.len() as u128 {
            return Err(PoolError::UnknownPool);
        }
        match self.find_account(pid, user) {
            Some(j) => Ok(self.accounts[j].positions.len()),
            None => Err(PoolError::UnknownAccount),
        }
    }

    /// The positions of `user` in pool `pid` with indices from `from` up to,
    /// not including, `to`.
    pub fn get_user_stakes(&self, pid: u128, user: &String, from: u128, to: u128) -> (r: Result<
        Vec<UserInfo>,
        PoolError,
    >)
        requires
            self@.wf(),
        ensures
            match r {
                Ok(v) => if from >= to {
                    v@.len() == 0
                } else {
                    &&& pid < self@.pools.len()
                    &&& slot(self@.accounts, pid, user@) >= 0
                    &&& to <= self@.account(pid, user@).positions.len()
                    &&& v@ == self@.account(pid, user@).positions.subrange(from as int, to as int)
                },
                Err(e) => from < to && e == (if pid >= self@.pools.len() {
                    PoolError::UnknownPool
                } else if slot(self@.accounts, pid, user@) < 0 {
                    PoolError::UnknownAccount
                } else {
                    PoolError::UnknownPosition
                }) && (pid >= self@.pools.len() || slot(self@.accounts, pid, user@) < 0 || to
                    > self@.account(pid, user@).positions.len()),
            },
    {
        let mut out: Vec<UserInfo> = Vec::new();
        if from >= to {
            return Ok(out);
        }
        if pid >= self.pool_info.len() as u128 {
            return Err(PoolError::UnknownPool);
        }
        let j = match self.find_account(pid, user) {
            Some(j) => j,
            None => return Err(PoolError::UnknownAccount),
        };
        let positions = &self.accounts[j].positions;
        if to > positions.len() as u128 {
            return Err(PoolError::UnknownPosition);
        }
        let mut k: usize = from as usize;
        while k < to as usize
            invariant
                from <= k <= to <= positions@.len(),
                out@ == positions@.subrange(from as int, k as int),
            decreases to - k,
        {
            out.push(positions[k]);
            proof {
                assert(out@ =~= positions@.subrange(from as int, k + 1));
            }
            k += 1;
        }
        Ok(out)
    }

    /// Overwrites the cached display fields of `pool_info` with what the
    /// underlying token reported.
    pub fn ft_metadata_callback(pool_info: &mut PoolInfo, meta: TokenMetadata)
        ensures
            *final(pool_info) == (PoolInfo {
                token_info: TokenInfo {
                    decimals: meta.decimals,
                    name: meta.name,
                    symbol: meta.symbol,
                    ..old(pool_info).token_info
                },
                ..*old(pool_info)
            }),
    {
        pool_info.token_info.decimals = meta.decimals;
        pool_info.token_info.name = meta.name;
        pool_info.token_info.symbol = meta.symbol;
    }

    /// The requests that return `amount` of pool `pid`'s principal to
    /// `account`.
    fn principal_actions(&self, pid: u128, account: &String, amount: u128) -> (r: Vec<Action>)
        requires
            (pid as int) < self@.pools.len(),
        ensures
            actions_view(r@) == principal_actions(self@.pools[pid as int], account@, amount),
    {
        let n = self.pool_info.len();
        assert(pid < n);
        let p = &self.pool_info[pid as usize];
        let mut acts: Vec<Action> = Vec::new();
        acts.push(
            Action::Burn {
                token: copy_string(&p.token_info.collateral_token),
                account: copy_string(account),
                amount,
            },
        );
        acts.push(
            Action::Transfer {
                token: copy_string(&p.token_info.token),
                receiver: copy_string(account),
                amount,
            },
        );
        assert(actions_view(acts@) =~= principal_actions(self@.pools[pid as int], account@, amount));
        acts
    }

    /// Lends `amount` of loan pool `pid`'s underlying token to `caller`, who
    /// must be whitelisted, as long as the pool's utilisation stays under
    /// its ceiling.
    pub fn borrow(&mut self, now: u64, caller: &String, pid: u128, amount: u128) -> (r: Result<
        Vec<Action>,
        PoolError,
    >)
        requires
            old(self)@.valid(),
        ensures
            final(self)@.valid(),
            match r {
                Ok(acts) => borrow_check(old(self)@, caller@, pid, amount) is None && final(self)@
                    == borrow_effect(old(self)@, now, caller@, pid, amount) && actions_view(acts@)
                    == seq![
                    ActionView::Transfer {
                        token: old(self)@.pools[pid as int].token_info.token@,
                        receiver: caller@,
                        amount,
                    },
                ],
                Err(e) => borrow_check(old(self)@, caller@, pid, amount) == Some(e) && *final(self)
                    == *old(self),
            },
    {
        if pid >= self.pool_info.len() as u128 {
            return Err(PoolError::UnknownPool);
        }
        let i = pid as usize;
        let found = self.find_account(pid, caller);
        let (whitelisted, borrowed) = match found {
            Some(j) => (self.accounts[j].is_whitelisted, self.accounts[j].borrowed),
            None => (false, 0),
        };
        if !whitelisted {
            return Err(PoolError::NotWhitelisted);
        }
        let funds = self.pool_info[i].funds;
        if funds.loaned_balance > u128::MAX - amount {
            return Err(PoolError::Overflow);
        }
        let projected_total = funds.loaned_balance + amount;
        if funds.balance != 0 && projected_total > u128::MAX / 100 {
            return Err(PoolError::Overflow);
        }
        let projected_utilisation = if funds.balance == 0 {
            0
        } else {
            self._calculate_percentage(projected_total, funds.balance)
        };
        if self.pool_info[i].pool_type != PoolType::Loan {
            return Err(PoolError::NotLoanPool);
        }
        if self.pool_info[i].paused {
            return Err(PoolError::PoolPaused);
        }
        if funds.balance == 0 {
            return Err(PoolError::NothingDeposited);
        }
        if projected_utilisation >= self.pool_info[i].deposit_limiters.max_utilisation {
            return Err(PoolError::UtilisationMaxedOut);
        }
        if borrowed > u128::MAX - amount {
            return Err(PoolError::Overflow);
        }
        let ghost s0 = self@;
        let j = self.account_slot(pid, caller);
        let ghost s1 = self@;
        let was_user = self.accounts[j].is_pool_user;
        proof {
            lemma_count_le_len(s1.accounts, pid);
            if !was_user {
                assert(s1.accounts[j as int].positions.len() == 0);
            }
        }
        self.accounts[j].positions.push(
            UserInfo { transaction_type: TransactionType::Borrow, amount, time: now, paid_out: 0 },
        );
        self.accounts[j].borrowed = borrowed + amount;
        self.accounts[j].is_pool_user = true;
        self.pool_info[i].funds.loaned_balance = projected_total;
        if !was_user {
            self.pool_info[i].unique_users = self.pool_info[i].unique_users + 1;
        }
        proof {
            let e = borrow_effect(s0, now, caller@, pid, amount);
            let a = s0.account(pid, caller@);
            let v = AccountView {
                is_pool_user: true,
                positions: a.positions.push(
                    UserInfo {
                        transaction_type: TransactionType::Borrow,
                        amount,
                        time: now,
                        paid_out: 0,
                    },
                ),
                borrowed: (a.borrowed + amount) as u128,
                ..a
            };
            assert(self@.accounts =~= s1.accounts.update(j as int, v));
            assert(self@.pools =~= e.pools);
            lemma_put_wf(s0, pid, e.pools[pid as int], caller@, v);
            assert(self@ == e);
            let p = s0.pools[pid as int];
            if s0.funds_sound() && p.deposit_limiters.max_utilisation <= 100 {
                let b = p.funds.balance as int;
                let t = projected_total as int;
                assert(t * 100 / b < 100);
                assert(t < b) by (nonlinear_arith)
                    requires
                        b > 0,
                        t >= 0,
                        t * 100 / b < 100,
                ;
            }
        }
        let token = copy_string(&self.pool_info[i].token_info.token);
        let mut acts: Vec<Action> = Vec::new();
        acts.push(Action::Transfer { token, receiver: copy_string(caller), amount });
        assert(actions_view(acts@) =~= seq![
            ActionView::Transfer {
                token: s0.pools[pid as int].token_info.token@,
                receiver: caller@,
                amount,
            },
        ]);
        Ok(acts)
    }
}

} // verus!

verus! {

/// What rejects `whitelist`, if anything does.
pub open spec fn whitelist_check(s: ContractView, caller: Seq<char>, pid: u128) -> Option<PoolError> {
    match admin_check(s, caller, pid) {
        Some(e) => Some(e),
        None => if s.pools[pid as int].pool_type != PoolType::Loan {
            Some(PoolError::NotLoanPool)
        } else {
            None
        },
    }
}

/// What rejects `create_pool`, if anything does.
pub open spec fn create_check(s: ContractView, caller: Seq<char>, info: PoolInfo, pool_type: PoolType) -> Option<
    PoolError,
> {
    if caller != s.owner {
        Some(PoolError::CallerNotAllowed)
    } else if (pool_type != PoolType::Loan || info.pool_type != PoolType::Loan)
        && info.deposit_limiters.start_time >= info.deposit_limiters.end_time {
        Some(PoolError::EndBeforeStart)
    } else if info.deposit_limiters.max_utilisation > 100 {
        Some(PoolError::UtilisationOutOfScale)
    } else {
        None
    }
}

/// What rejects `edit_pool` reconfiguring pool `pid` as `new`, if anything
/// does.
pub open spec fn edit_check(s: ContractView, caller: Seq<char>, pid: u128, new: PoolInfo) -> Option<
    PoolError,
> {
    match admin_check(s, caller, pid) {
        Some(e) => Some(e),
        None => if new.deposit_limiters.max_utilisation > 100 {
            Some(PoolError::UtilisationOutOfScale)
        } else if new.pool_type == PoolType::Staking && s.pools[pid as int].funds.loaned_balance
            > 0 {
            Some(PoolError::LoansOutstanding)
        } else {
            None
        },
    }
}

/// What rejects a deposit of `amount` of `token` by `staker` into pool
/// `pid` at time `now`, if anything does.
pub open spec fn deposit_check(
    s: ContractView,
    now: u64,
    staker: Seq<char>,
    pid: u128,
    token: Seq<char>,
    amount: u128,
) -> Option<PoolError> {
    if pid >= s.pools.len() {
        Some(PoolError::UnknownPool)
    } else {
        let p = s.pools[pid as int];
        if p.paused {
            Some(PoolError::PoolPaused)
        } else if p.token_info.token@ != token {
            Some(PoolError::InvalidToken)
        } else if p.pool_type == PoolType::Staking && !(p.deposit_limiters.start_time <= now
            <= p.deposit_limiters.end_time) {
            Some(PoolError::DepositsDisabled)
        } else if amount > p.deposit_limiters.limit_per_user {
            Some(PoolError::ExceedsLimitPerUser)
        } else if p.funds.balance + amount > u128::MAX {
            Some(PoolError::Overflow)
        } else if p.funds.balance + amount > p.deposit_limiters.capacity {
            Some(PoolError::CapacityReached)
        } else if s.account(pid, staker).staked + amount > u128::MAX {
            Some(PoolError::Overflow)
        } else {
            None
        }
    }
}

/// The state after an admitted deposit.
pub open spec fn deposit_effect(s: ContractView, now: u64, staker: Seq<char>, pid: u128, amount: u128) -> ContractView {
    let p = s.pools[pid as int];
    let a = s.account(pid, staker);
    s.put(
        pid,
        PoolInfo {
            funds: Funds { balance: (p.funds.balance + amount) as u128, ..p.funds },
            unique_users: if a.is_pool_user {
                p.unique_users
            } else {
                (p.unique_users + 1) as u128
            },
            ..p
        },
        staker,
        AccountView {
            is_pool_user: true,
            positions: a.positions.push(
                UserInfo {
                    transaction_type: TransactionType::Staking,
                    amount,
                    time: now,
                    paid_out: 0,
                },
            ),
            staked: (a.staked + amount) as u128,
            ..a
        },
    )
}


/// What rejects an emergency withdrawal, if anything does.
pub open spec fn emergency_check(s: ContractView, caller: Seq<char>, pid: u128, index: int, amount: u128) -> Option<
    PoolError,
> {
    if pid >= s.pools.len() {
        Some(PoolError::UnknownPool)
    } else if index >= s.account(pid, caller).positions.len() {
        Some(PoolError::UnknownPosition)
    } else if amount > s.account(pid, caller).positions[index].amount {
        Some(PoolError::Underflow)
    } else {
        None
    }
}

/// Burning `amount` of pool `p`'s claim token from `account`, then sending
/// it as much of the underlying token.
pub open spec fn principal_actions(p: PoolInfo, account: Seq<char>, amount: u128) -> Seq<ActionView> {
    seq![
        ActionView::Burn { token: p.token_info.collateral_token@, account, amount },
        ActionView::Transfer { token: p.token_info.token@, receiver: account, amount },
    ]
}

/// What rejects a loan of `amount` from pool `pid` to `caller`, if anything
/// does.
pub open spec fn borrow_check(s: ContractView, caller: Seq<char>, pid: u128, amount: u128) -> Option<
    PoolError,
> {
    if pid >= s.pools.len() {
        Some(PoolError::UnknownPool)
    } else {
        let p = s.pools[pid as int];
        let a = s.account(pid, caller);
        if !a.is_whitelisted {
            Some(PoolError::NotWhitelisted)
        } else if p.funds.loaned_balance + amount > u128::MAX {
            Some(PoolError::Overflow)
        } else if p.funds.balance != 0 && (p.funds.loaned_balance + amount) * 100 > u128::MAX {
            Some(PoolError::Overflow)
        } else if p.pool_type != PoolType::Loan {
            Some(PoolError::NotLoanPool)
        } else if p.paused {
            Some(PoolError::PoolPaused)
        } else if p.funds.balance == 0 {
            Some(PoolError::NothingDeposited)
        } else if percentage(p.funds.loaned_balance + amount, p.funds.balance as int)
            >= p.deposit_limiters.max_utilisation {
            Some(PoolError::UtilisationMaxedOut)
        } else if a.borrowed + amount > u128::MAX {
            Some(PoolError::Overflow)
        } else {
            None
        }
    }
}

/// The state after an admitted loan.
pub open spec fn borrow_effect(s: ContractView, now: u64, caller: Seq<char>, pid: u128, amount: u128) -> ContractView {
    let p = s.pools[pid as int];
    let a = s.account(pid, caller);
    s.put(
        pid,
        PoolInfo {
            funds: Funds { loaned_balance: (p.funds.loaned_balance + amount) as u128, ..p.funds },
            unique_users: if a.is_pool_user {
                p.unique_users
            } else {
                (p.unique_users + 1) as u128
            },
            ..p
        },
        caller,
        AccountView {
            is_pool_user: true,
            positions: a.positions.push(
                UserInfo { transaction_type: TransactionType::Borrow, amount, time: now, paid_out: 0 },
            ),
            borrowed: (a.borrowed + amount) as u128,
            ..a
        },
    )
}


/// What rejects a withdrawal of `amount` from position `index` of `caller`
/// in pool `pid` at time `now`, if anything does. Before the pool's deposit
/// window ends, a withdrawal is an emergency withdrawal.
pub open spec fn withdraw_check(s: ContractView, now: u64, caller: Seq<char>, pid: u128, index: int, amount: u128) -> Option<
    PoolError,
> {
    if pid >= s.pools.len() {
        Some(PoolError::UnknownPool)
    } else if slot(s.accounts, pid, caller) < 0 {
        Some(PoolError::UnknownAccount)
    } else {
        let p = s.pools[pid as int];
        let a = s.account(pid, caller);
        let lim = p.deposit_limiters;
        let staking = p.pool_type == PoolType::Staking;
        if now < lim.end_time {
            emergency_check(s, caller, pid, index, amount)
        } else if index >= a.positions.len() {
            Some(PoolError::UnknownPosition)
        } else if a.positions[index].transaction_type != TransactionType::Staking {
            Some(PoolError::NotStaked)
        } else if amount > a.positions[index].amount {
            Some(PoolError::AmountGreaterThanTransaction)
        } else if staking && lim.end_time + lim.duration > u64::MAX {
            Some(PoolError::Overflow)
        } else if staking && now < lim.end_time + lim.duration {
            Some(PoolError::WithdrawingTooEarly)
        } else if !staking && p.funds.loaned_balance + amount > u128::MAX {
            Some(PoolError::Overflow)
        } else if !staking && p.funds.balance < p.funds.loaned_balance + amount {
            Some(PoolError::HighUtilisation)
        } else if !staking && p.funds.balance - amount != 0 && p.funds.loaned_balance * 100
            > u128::MAX {
            Some(PoolError::Overflow)
        } else if !staking && percentage(
            p.funds.loaned_balance as int,
            p.funds.balance - amount,
        ) >= lim.max_utilisation {
            Some(PoolError::UtilisationMaxedOut)
        } else {
            match reward_result(s, now, caller, pid, index, (now - lim.end_time) as u64, amount) {
                Err(e) => Some(e),
                Ok(_) => if a.staked < amount {
                    Some(PoolError::Underflow)
                } else if p.funds.balance < amount {
                    Some(PoolError::Underflow)
                } else {
                    None
                },
            }
        }
    }
}

/// The reward still owed on `amount` of position `index` of `account` in
/// pool `pid` at time `now`, `duration` after the deposit window ended.
pub open spec fn reward_due(
    s: ContractView,
    now: u64,
    account: Seq<char>,
    pid: u128,
    index: int,
    duration: u64,
    amount: u128,
) -> u128 {
    match reward_result(s, now, account, pid, index, duration, amount) {
        Ok(reward) => claimable(reward, s.account(pid, account).positions[index].paid_out),
        Err(_) => 0,
    }
}

/// The time from the end of pool `pid`'s deposit window to `now`.
pub open spec fn since_end(s: ContractView, pid: u128, now: u64) -> u64 {
    (now - s.pools[pid as int].deposit_limiters.end_time) as u64
}

/// The part of pool `p`'s reward window that has passed at `now`.
pub open spec fn claim_window(p: PoolInfo, now: u64) -> u64 {
    if now - p.deposit_limiters.end_time > p.deposit_limiters.duration {
        p.deposit_limiters.duration
    } else {
        (now - p.deposit_limiters.end_time) as u64
    }
}

/// The state after an admitted withdrawal once the deposit window has ended:
/// the reward is paid, the principal taken off the position, the account's
/// total and the pool's balance lowered, and the position cleaned up.
pub open spec fn withdraw_effect(s: ContractView, now: u64, caller: Seq<char>, pid: u128, index: int, amount: u128) -> ContractView {
    s.rewarded(pid, caller, index, reward_due(s, now, caller, pid, index, since_end(s, pid, now), amount)).settled(
        pid,
        caller,
        index,
        amount,
        now,
        amount,
        0,
        amount,
        0,
    ).cleaned_up(pid, caller, index)
}

/// What rejects a repayment of `repay_amount` of loan `index` of `borrower`
/// in pool `pid`, paid for with a transfer of `amount` of `token`, if
/// anything does.
pub open spec fn repay_check(
    s: ContractView,
    now: u64,
    borrower: Seq<char>,
    pid: u128,
    index: int,
    token: Seq<char>,
    amount: u128,
    repay_amount: u128,
) -> Option<PoolError> {
    match interest_result(s, now, borrower, pid, index, repay_amount) {
        Err(e) => Some(e),
        Ok(interest) => {
            let p = s.pools[pid as int];
            let a = s.account(pid, borrower);
            if p.token_info.token@ != token {
                Some(PoolError::InvalidToken)
            } else if p.pool_type != PoolType::Loan {
                Some(PoolError::NotLoanPool)
            } else if a.positions[index].transaction_type != TransactionType::Borrow {
                Some(PoolError::NotBorrowed)
            } else if repay_amount + interest > u128::MAX {
                Some(PoolError::Overflow)
            } else if amount < repay_amount + interest {
                Some(PoolError::InsufficientRepayment)
            } else if a.borrowed < amount {
                Some(PoolError::Underflow)
            } else if p.funds.loaned_balance < amount {
                Some(PoolError::Underflow)
            } else {
                None
            }
        },
    }
}

/// What rejects a quarterly payout on position `index` of `caller` in pool
/// `pid` at time `now`, if anything does.
pub open spec fn claim_check(s: ContractView, now: u64, caller: Seq<char>, pid: u128, index: int) -> Option<
    PoolError,
> {
    if pid >= s.pools.len() {
        Some(PoolError::UnknownPool)
    } else if slot(s.accounts, pid, caller) < 0 {
        Some(PoolError::UnknownAccount)
    } else {
        let p = s.pools[pid as int];
        let lim = p.deposit_limiters;
        let a = s.account(pid, caller);
        if !p.quarterly_payout {
            Some(PoolError::QuarterlyPayoutDisabled)
        } else if p.pool_type != PoolType::Staking {
            Some(PoolError::NotStakingPool)
        } else if now <= lim.end_time {
            Some(PoolError::NotStarted)
        } else if claim_window(p, now) / QUARTER_DAY == 0 {
            Some(PoolError::TooEarly)
        } else if index >= a.positions.len() {
            Some(PoolError::UnknownPosition)
        } else {
            match reward_result(s, now, caller, pid, index, claim_window(p, now), a.positions[index].amount) {
                Err(e) => Some(e),
                Ok(_) => None,
            }
        }
    }
}

} // verus!
