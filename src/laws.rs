//! Properties that hold of the ledger across operations.
use vstd::prelude::*;

use crate::model::{
    cleaned, claimable, count_users, keys_unique, lemma_put_twice, slot, user_mark, ContractView,
};
use crate::types::AccountView;

verus! {

/// In every state that the operations accept and keep, each pool has lent
/// out no more than it holds.
pub proof fn lemma_loaned_within_balance(s: ContractView, pid: u128)
    requires
        s.valid(),
        (pid as int) < s.pools.len(),
    ensures
        s.pools[pid as int].funds.loaned_balance <= s.pools[pid as int].funds.balance,
{
}

/// The accounts of pool `pid` in `l` that hold at least one position.
pub open spec fn pool_users(l: Seq<AccountView>, pid: u128) -> Set<Seq<char>> {
    Set::new(
        |a: Seq<char>|
            exists|j: int|
                0 <= j < l.len() && l[j].pid == pid && l[j].account == a && l[j].positions.len()
                    > 0,
    )
}

/// With one state per (pool, account), the count of a pool's users is the
/// number of distinct accounts holding a position in it; so, by the
/// ledger's invariant, so is the pool's `unique_users`.
pub proof fn lemma_unique_users_counts_accounts(s: ContractView, pid: u128)
    requires
        s.wf(),
        (pid as int) < s.pools.len(),
    ensures
        pool_users(s.accounts, pid).finite(),
        s.pools[pid as int].unique_users == pool_users(s.accounts, pid).len(),
{
    lemma_count_is_card(s.accounts, pid);
}

/// `count_users` is the size of `pool_users` where keys are unique.
pub proof fn lemma_count_is_card(l: Seq<AccountView>, pid: u128)
    requires
        keys_unique(l),
    ensures
        pool_users(l, pid).finite(),
        count_users(l, pid) == pool_users(l, pid).len(),
    decreases l.len(),
{
    if l.len() == 0 {
        assert(pool_users(l, pid) =~= Set::<Seq<char>>::empty());
    } else {
        let r = l.drop_last();
        let last = l.last();
        assert(keys_unique(r)) by {
            assert forall|i: int, j: int|
                0 <= i < r.len() && 0 <= j < r.len() && i != j implies !(r[i].pid == r[j].pid
                && r[i].account == r[j].account) by {
                assert(l[i] == r[i] && l[j] == r[j]);
            }
        }
        lemma_count_is_card(r, pid);
        if user_mark(last, pid) == 1 {
            assert(pool_users(l, pid) =~= pool_users(r, pid).insert(last.account)) by {
                assert forall|a: Seq<char>| pool_users(r, pid).contains(a) implies pool_users(
                    l,
                    pid,
                ).contains(a) by {
                    let j = choose|j: int|
                        0 <= j < r.len() && r[j].pid == pid && r[j].account == a
                            && r[j].positions.len() > 0;
                    assert(l[j] == r[j]);
                }
                assert(l[l.len() - 1] == last);
                assert forall|a: Seq<char>| pool_users(l, pid).contains(a) implies pool_users(
                    r,
                    pid,
                ).insert(last.account).contains(a) by {
                    let j = choose|j: int|
                        0 <= j < l.len() && l[j].pid == pid && l[j].account == a
                            && l[j].positions.len() > 0;
                    if j < r.len() {
                        assert(r[j] == l[j]);
                    }
                }
            }
            assert(!pool_users(r, pid).contains(last.account)) by {
                if pool_users(r, pid).contains(last.account) {
                    let j = choose|j: int|
                        0 <= j < r.len() && r[j].pid == pid && r[j].account == last.account
                            && r[j].positions.len() > 0;
                    assert(l[j] == r[j]);
                    assert(l[l.len() - 1] == last);
                }
            }
        } else {
            assert(pool_users(l, pid) =~= pool_users(r, pid)) by {
                assert forall|a: Seq<char>| pool_users(r, pid).contains(a) implies pool_users(
                    l,
                    pid,
                ).contains(a) by {
                    let j = choose|j: int|
                        0 <= j < r.len() && r[j].pid == pid && r[j].account == a
                            && r[j].positions.len() > 0;
                    assert(l[j] == r[j]);
                }
                assert forall|a: Seq<char>| pool_users(l, pid).contains(a) implies pool_users(
                    r,
                    pid,
                ).contains(a) by {
                    let j = choose|j: int|
                        0 <= j < l.len() && l[j].pid == pid && l[j].account == a
                            && l[j].positions.len() > 0;
                    if j < r.len() {
                        assert(r[j] == l[j]);
                    } else {
                        assert(l[j] == last);
                    }
                }
            }
        }
    }
}

/// Taking the whole remaining principal off a position and cleaning up
/// removes it, the account's last position taking its place; taking less
/// keeps every position, with that one's principal lowered by the sum taken.
pub proof fn lemma_cleanup_after_settlement(
    s: ContractView,
    pid: u128,
    account: Seq<char>,
    index: int,
    principal: u128,
    now: u64,
    staked: u128,
    borrowed: u128,
    balance: u128,
    loaned: u128,
)
    requires
        s.wf(),
        (pid as int) < s.pools.len(),
        slot(s.accounts, pid, account) >= 0,
        0 <= index < s.account(pid, account).positions.len(),
        principal <= s.account(pid, account).positions[index].amount,
    ensures
        ({
            let ps = s.account(pid, account).positions;
            let after = s.settled(
                pid,
                account,
                index,
                principal,
                now,
                staked,
                borrowed,
                balance,
                loaned,
            ).cleaned_up(pid, account, index).account(pid, account).positions;
            &&& principal == ps[index].amount ==> after == ps.update(index, ps.last()).drop_last()
            &&& principal < ps[index].amount ==> {
                &&& after.len() == ps.len()
                &&& after[index].amount == ps[index].amount - principal
                &&& forall|k: int| 0 <= k < ps.len() && k != index ==> after[k] == ps[k]
            }
        }),
{
    let a = s.account(pid, account);
    let ps = a.positions;
    let pos = ps[index];
    let p = s.pools[pid as int];
    let v = AccountView {
        positions: ps.update(
            index,
            crate::types::UserInfo { amount: (pos.amount - principal) as u128, time: now, ..pos },
        ),
        staked: (a.staked - staked) as u128,
        borrowed: (a.borrowed - borrowed) as u128,
        ..a
    };
    let np = crate::types::PoolInfo {
        funds: crate::types::Funds {
            balance: (p.funds.balance - balance) as u128,
            loaned_balance: (p.funds.loaned_balance - loaned) as u128,
        },
        ..p
    };
    let k = slot(s.accounts, pid, account);
    assert(0 <= k < s.accounts.len() && s.accounts[k].pid == pid && s.accounts[k].account
        == account);
    lemma_put_twice(s, pid, np, account, v, np, v);
    let t = s.put(pid, np, account, v);
    let c = cleaned(v.positions, index);
    let w = AccountView { positions: c, is_pool_user: c.len() > 0, ..v };
    let tp = t.pools[pid as int];
    let np2 = crate::types::PoolInfo {
        unique_users: if c.len() == 0 {
            (tp.unique_users - 1) as u128
        } else {
            tp.unique_users
        },
        ..tp
    };
    lemma_put_twice(t, pid, np2, account, w, np2, w);
    if principal == pos.amount {
        assert(c =~= ps.update(index, ps.last()).drop_last());
    }
}

/// Settling a reward never lowers what a position was paid: afterwards it
/// has been paid the larger of what it had been paid and the reward.
pub proof fn lemma_payout_monotonic(
    s: ContractView,
    pid: u128,
    account: Seq<char>,
    index: int,
    reward: u128,
)
    requires
        s.wf(),
        (pid as int) < s.pools.len(),
        slot(s.accounts, pid, account) >= 0,
        0 <= index < s.account(pid, account).positions.len(),
    ensures
        ({
            let before = s.account(pid, account).positions[index].paid_out;
            let after = s.rewarded(pid, account, index, claimable(reward, before)).account(
                pid,
                account,
            ).positions[index].paid_out;
            &&& after >= before
            &&& after == if reward > before {
                reward
            } else {
                before
            }
        }),
{
    let a = s.account(pid, account);
    let pos = a.positions[index];
    let claim = claimable(reward, pos.paid_out);
    let v = crate::model::with_position(
        a,
        index,
        crate::types::UserInfo { paid_out: (pos.paid_out + claim) as u128, ..pos },
    );
    let k = slot(s.accounts, pid, account);
    assert(0 <= k < s.accounts.len() && s.accounts[k].pid == pid && s.accounts[k].account
        == account);
    lemma_put_twice(s, pid, s.pools[pid as int], account, v, s.pools[pid as int], v);
}

} // verus!
