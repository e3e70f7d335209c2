use vstd::prelude::*;
use crate::types::{DelegationError, FundType, SweepOrder};
use crate::bytes::find_bytes;

verus! {
/// Stake of one user (or of the totals pseudo-user), split by fund type,
/// together with the user's total stake.
#[derive(Clone, Copy, Debug, PartialEq, Eq, Structural)]
pub struct UserStake {
    pub inactive: u64,
    pub pending_activation: u64,
    pub active: u64,
    pub pending_deactivation: u64,
    pub unbond_period: u64,
    pub pending_unbond: u64,
    pub withdraw_only: u64,
    pub stake_for_sale: u64,
    pub total: u64,
}

impl UserStake {
    pub open spec fn of(self, t: FundType) -> u64 {
        match t {
            FundType::Inactive => self.inactive,
            FundType::PendingActivation => self.pending_activation,
            FundType::Active => self.active,
            FundType::PendingDeactivation => self.pending_deactivation,
            FundType::UnBondPeriod => self.unbond_period,
            FundType::PendingUnBond => self.pending_unbond,
            FundType::WithdrawOnly => self.withdraw_only,
            FundType::StakeForSale => self.stake_for_sale,
        }
    }

    /// Sum of the balances over all fund types.
    pub open spec fn type_sum(self) -> int {
        self.inactive + self.pending_activation + self.active + self.pending_deactivation
            + self.unbond_period + self.pending_unbond + self.withdraw_only + self.stake_for_sale
    }

    /// The same stake with the balance of type `t` replaced by `v`.
    #[verifier::opaque]
    pub open spec fn set_spec(self, t: FundType, v: u64) -> UserStake {
        match t {
            FundType::Inactive => UserStake { inactive: v, ..self },
            FundType::PendingActivation => UserStake { pending_activation: v, ..self },
            FundType::Active => UserStake { active: v, ..self },
            FundType::PendingDeactivation => UserStake { pending_deactivation: v, ..self },
            FundType::UnBondPeriod => UserStake { unbond_period: v, ..self },
            FundType::PendingUnBond => UserStake { pending_unbond: v, ..self },
            FundType::WithdrawOnly => UserStake { withdraw_only: v, ..self },
            FundType::StakeForSale => UserStake { stake_for_sale: v, ..self },
        }
    }

    /// The stake after `d` moved from type `from` to type `to`.
    pub open spec fn moved(self, from: FundType, to: FundType, d: int) -> UserStake {
        self.set_spec(from, (self.of(from) - d) as u64).set_spec(to, (self.of(to) + d) as u64)
    }

    pub open spec fn zero_spec() -> UserStake {
        UserStake {
            inactive: 0,
            pending_activation: 0,
            active: 0,
            pending_deactivation: 0,
            unbond_period: 0,
            pending_unbond: 0,
            withdraw_only: 0,
            stake_for_sale: 0,
            total: 0,
        }
    }

    pub fn zero() -> (r: UserStake)
        ensures
            r == UserStake::zero_spec(),
            forall|t: FundType| r.of(t) == 0,
            r.total == 0,
            r.type_sum() == 0,
    {
        UserStake {
            inactive: 0,
            pending_activation: 0,
            active: 0,
            pending_deactivation: 0,
            unbond_period: 0,
            pending_unbond: 0,
            withdraw_only: 0,
            stake_for_sale: 0,
            total: 0,
        }
    }

    pub fn get(&self, t: FundType) -> (r: u64)
        ensures
            r == self.of(t),
    {
        match t {
            FundType::Inactive => self.inactive,
            FundType::PendingActivation => self.pending_activation,
            FundType::Active => self.active,
            FundType::PendingDeactivation => self.pending_deactivation,
            FundType::UnBondPeriod => self.unbond_period,
            FundType::PendingUnBond => self.pending_unbond,
            FundType::WithdrawOnly => self.withdraw_only,
            FundType::StakeForSale => self.stake_for_sale,
        }
    }

    pub fn set(&mut self, t: FundType, v: u64)
        ensures
            *final(self) == old(self).set_spec(t, v),
    {
        proof { reveal(UserStake::set_spec); }
        match t {
            FundType::Inactive => self.inactive = v,
            FundType::PendingActivation => self.pending_activation = v,
            FundType::Active => self.active = v,
            FundType::PendingDeactivation => self.pending_deactivation = v,
            FundType::UnBondPeriod => self.unbond_period = v,
            FundType::PendingUnBond => self.pending_unbond = v,
            FundType::WithdrawOnly => self.withdraw_only = v,
            FundType::StakeForSale => self.stake_for_sale = v,
        }
    }
}

pub proof fn lemma_set_spec(u: UserStake, t: FundType, v: u64)
    ensures
        u.set_spec(t, v).of(t) == v,
        forall|t2: FundType| t2 != t ==> #[trigger] u.set_spec(t, v).of(t2) == u.of(t2),
        u.set_spec(t, v).total == u.total,
        u.set_spec(t, v).type_sum() == u.type_sum() - u.of(t) + v,
{
    reveal(UserStake::set_spec);
}

/// One balance of a stake is at most its fund-type sum.
pub proof fn lemma_one_le_sum(u: UserStake, a: FundType)
    ensures
        u.of(a) <= u.type_sum(),
{
}

/// Two distinct balances of a stake add up to at most its fund-type sum.
pub proof fn lemma_two_le_sum(u: UserStake, a: FundType, b: FundType)
    requires
        a != b,
    ensures
        u.of(a) + u.of(b) <= u.type_sum(),
{
}

pub proof fn lemma_moved(u: UserStake, from: FundType, to: FundType, d: int)
    requires
        from != to,
        0 <= d <= u.of(from),
        u.of(to) + d <= u64::MAX,
    ensures
        u.moved(from, to, d).of(from) == u.of(from) - d,
        u.moved(from, to, d).of(to) == u.of(to) + d,
        forall|t: FundType| t != from && t != to ==> #[trigger] u.moved(from, to, d).of(t) == u.of(t),
        u.moved(from, to, d).total == u.total,
        u.moved(from, to, d).type_sum() == u.type_sum(),
{
    let v1 = u.set_spec(from, (u.of(from) - d) as u64);
    lemma_set_spec(u, from, (u.of(from) - d) as u64);
    lemma_set_spec(v1, to, (u.of(to) + d) as u64);
}

pub open spec fn move_delta(from: FundType, to: FundType, d: int, t: FundType) -> int {
    if t == from { -d } else if t == to { d } else { 0 }
}

pub proof fn lemma_moved_diff(u: UserStake, from: FundType, to: FundType, d: int)
    requires
        from != to,
        0 <= d <= u.of(from),
        u.of(to) + d <= u64::MAX,
    ensures
        forall|t: FundType| #[trigger] u.moved(from, to, d).of(t) - u.of(t) == move_delta(from, to, d, t),
        u.moved(from, to, d).total == u.total,
        u.moved(from, to, d).type_sum() == u.type_sum(),
{
    lemma_moved(u, from, to, d);
}

/// Sum of the balances of type `t` over the users with ids in `lo..hi`.
pub open spec fn sum_of(s: Seq<UserStake>, t: FundType, lo: int, hi: int) -> int
    decreases hi - lo,
{
    if hi <= lo {
        0
    } else {
        sum_of(s, t, lo, hi - 1) + s[hi - 1].of(t)
    }
}

pub open spec fn min(a: int, b: int) -> int {
    if a <= b { a } else { b }
}

pub open spec fn clip(a: int) -> int {
    if a < 0 { 0 } else { a }
}

/// What an ordered transform of `amount` from type `t` draws from user `i`:
/// all of the user's balance, or what is left after the users visited before.
pub open spec fn draw(s: Seq<UserStake>, t: FundType, amount: int, order: SweepOrder, i: int) -> int {
    let before = match order {
        SweepOrder::Ascending => sum_of(s, t, 1, i),
        SweepOrder::Descending => sum_of(s, t, i + 1, s.len() as int),
    };
    min(s[i].of(t) as int, clip(amount - before))
}

/// The users' stakes after an ordered transform of `amount` from `from` to `to`;
/// the totals pseudo-user moves the whole amount.
pub open spec fn transformed(
    s: Seq<UserStake>,
    from: FundType,
    to: FundType,
    amount: int,
    order: SweepOrder,
) -> Seq<UserStake> {
    Seq::new(
        s.len(),
        |i: int|
            if i == 0 {
                s[0].moved(from, to, amount)
            } else {
                s[i].moved(from, to, draw(s, from, amount, order, i))
            },
    )
}

pub proof fn lemma_sum_nonneg(s: Seq<UserStake>, t: FundType, lo: int, hi: int)
    ensures
        sum_of(s, t, lo, hi) >= 0,
    decreases hi - lo,
{
    if hi > lo {
        lemma_sum_nonneg(s, t, lo, hi - 1);
    }
}

/// Splitting off the first element of a range.
pub proof fn lemma_sum_front(s: Seq<UserStake>, t: FundType, lo: int, hi: int)
    requires
        lo < hi,
    ensures
        sum_of(s, t, lo, hi) == s[lo].of(t) + sum_of(s, t, lo + 1, hi),
    decreases hi - lo,
{
    assert(sum_of(s, t, lo, hi) == sum_of(s, t, lo, hi - 1) + s[hi - 1].of(t));
    if hi - 1 > lo {
        lemma_sum_front(s, t, lo, hi - 1);
        assert(sum_of(s, t, lo + 1, hi) == sum_of(s, t, lo + 1, hi - 1) + s[hi - 1].of(t));
    } else {
        assert(sum_of(s, t, lo, hi - 1) == 0);
        assert(sum_of(s, t, lo + 1, hi) == 0);
    }
}

/// Splitting a range at `mid`.
pub proof fn lemma_sum_split(s: Seq<UserStake>, t: FundType, lo: int, mid: int, hi: int)
    requires
        lo <= mid <= hi,
    ensures
        sum_of(s, t, lo, hi) == sum_of(s, t, lo, mid) + sum_of(s, t, mid, hi),
    decreases hi - mid,
{
    if hi > mid {
        lemma_sum_split(s, t, lo, mid, hi - 1);
    }
}

/// One element of a range is at most the sum of the range.
pub proof fn lemma_sum_bound(s: Seq<UserStake>, t: FundType, lo: int, i: int, hi: int)
    requires
        lo <= i < hi,
    ensures
        s[i].of(t) <= sum_of(s, t, lo, hi),
{
    lemma_sum_split(s, t, lo, i, hi);
    lemma_sum_front(s, t, i, hi);
    lemma_sum_nonneg(s, t, lo, i);
    lemma_sum_nonneg(s, t, i + 1, hi);
}

/// A sum reads only the balances in its range.
pub proof fn lemma_sum_ext(s1: Seq<UserStake>, s2: Seq<UserStake>, t: FundType, lo: int, hi: int)
    requires
        forall|j: int| lo <= j < hi ==> #[trigger] s1[j].of(t) == s2[j].of(t),
    ensures
        sum_of(s1, t, lo, hi) == sum_of(s2, t, lo, hi),
    decreases hi - lo,
{
    if hi > lo {
        lemma_sum_ext(s1, s2, t, lo, hi - 1);
    }
}

/// Changing one element changes the sum of a range that holds it by the difference.
pub proof fn lemma_sum_update(s: Seq<UserStake>, t: FundType, lo: int, hi: int, i: int, v: UserStake)
    requires
        lo <= i < hi <= s.len(),
        0 <= lo,
    ensures
        sum_of(s.update(i, v), t, lo, hi) == sum_of(s, t, lo, hi) - s[i].of(t) + v.of(t),
{
    let s2 = s.update(i, v);
    lemma_sum_split(s, t, lo, i, hi);
    lemma_sum_split(s2, t, lo, i, hi);
    lemma_sum_front(s, t, i, hi);
    lemma_sum_front(s2, t, i, hi);
    lemma_sum_ext(s, s2, t, lo, i);
    lemma_sum_ext(s, s2, t, i + 1, hi);
}

/// In an ascending sweep, the prefix of visited users gave up exactly what
/// the sweep asked of them, up to what they held.
pub proof fn lemma_asc_prefix(s: Seq<UserStake>, from: FundType, to: FundType, amount: int, k: int)
    requires
        from != to,
        1 <= k <= s.len(),
        amount >= 0,
        forall|j: int| 1 <= j < s.len() ==> s[j].of(to) + s[j].of(from) <= u64::MAX,
    ensures
        sum_of(transformed(s, from, to, amount, SweepOrder::Ascending), from, 1, k)
            == sum_of(s, from, 1, k) - min(amount, sum_of(s, from, 1, k)),
        sum_of(transformed(s, from, to, amount, SweepOrder::Ascending), to, 1, k)
            == sum_of(s, to, 1, k) + min(amount, sum_of(s, from, 1, k)),
        forall|t: FundType| t != from && t != to ==>
            sum_of(#[trigger] transformed(s, from, to, amount, SweepOrder::Ascending), t, 1, k)
                == sum_of(s, t, 1, k),
    decreases k,
{
    let n = transformed(s, from, to, amount, SweepOrder::Ascending);
    lemma_sum_nonneg(s, from, 1, k);
    if k > 1 {
        lemma_asc_prefix(s, from, to, amount, k - 1);
        let d = draw(s, from, amount, SweepOrder::Ascending, k - 1);
        lemma_sum_nonneg(s, from, 1, k - 1);
        lemma_moved(s[k - 1], from, to, d);
        assert(n[k - 1] == s[k - 1].moved(from, to, d));
        assert forall|t: FundType| t != from && t != to implies
            sum_of(#[trigger] transformed(s, from, to, amount, SweepOrder::Ascending), t, 1, k)
                == sum_of(s, t, 1, k) by {
            assert(n[k - 1].of(t) == s[k - 1].of(t));
            assert(sum_of(n, t, 1, k) == sum_of(n, t, 1, k - 1) + n[k - 1].of(t));
            assert(sum_of(s, t, 1, k) == sum_of(s, t, 1, k - 1) + s[k - 1].of(t));
        }
    }
}

/// In a descending sweep, the suffix of visited users gave up exactly what
/// the sweep asked of them, up to what they held.
pub proof fn lemma_desc_suffix(s: Seq<UserStake>, from: FundType, to: FundType, amount: int, k: int)
    requires
        from != to,
        1 <= k <= s.len(),
        amount >= 0,
        forall|j: int| 1 <= j < s.len() ==> s[j].of(to) + s[j].of(from) <= u64::MAX,
    ensures
        sum_of(transformed(s, from, to, amount, SweepOrder::Descending), from, k, s.len() as int)
            == sum_of(s, from, k, s.len() as int) - min(amount, sum_of(s, from, k, s.len() as int)),
        sum_of(transformed(s, from, to, amount, SweepOrder::Descending), to, k, s.len() as int)
            == sum_of(s, to, k, s.len() as int) + min(amount, sum_of(s, from, k, s.len() as int)),
        forall|t: FundType| t != from && t != to ==>
            sum_of(#[trigger] transformed(s, from, to, amount, SweepOrder::Descending), t, k, s.len() as int)
                == sum_of(s, t, k, s.len() as int),
    decreases s.len() - k,
{
    let n = transformed(s, from, to, amount, SweepOrder::Descending);
    let len = s.len() as int;
    lemma_sum_nonneg(s, from, k, len);
    if k < len {
        lemma_desc_suffix(s, from, to, amount, k + 1);
        let d = draw(s, from, amount, SweepOrder::Descending, k);
        lemma_sum_nonneg(s, from, k + 1, len);
        lemma_moved(s[k], from, to, d);
        assert(n[k] == s[k].moved(from, to, d));
        lemma_sum_front(s, from, k, len);
        lemma_sum_front(n, from, k, len);
        lemma_sum_front(s, to, k, len);
        lemma_sum_front(n, to, k, len);
        assert forall|t: FundType| t != from && t != to implies
            sum_of(#[trigger] transformed(s, from, to, amount, SweepOrder::Descending), t, k, len)
                == sum_of(s, t, k, len) by {
            lemma_sum_front(s, t, k, len);
            lemma_sum_front(n, t, k, len);
            assert(n[k].of(t) == s[k].of(t));
        }
    }
}

/// The fund ledger as a mathematical value: `stakes[0]` is the totals
/// pseudo-user, `stakes[i]` the stake of user `i`, and `addresses[i - 1]`
/// the address of user `i`.
pub struct LedgerView {
    pub stakes: Seq<UserStake>,
    pub addresses: Seq<Seq<u8>>,
}

impl LedgerView {
    pub open spec fn num_users(self) -> int {
        self.addresses.len() as int
    }

    /// Aggregate per fund type is the sum over the users; every user's total
    /// is the sum of its fund-type balances; addresses are distinct.
    pub open spec fn wf(self) -> bool {
        &&& self.stakes.len() == self.addresses.len() + 1
        &&& forall|t: FundType| #[trigger] self.stakes[0].of(t) == sum_of(self.stakes, t, 1, self.stakes.len() as int)
        &&& forall|i: int| 0 <= i < self.stakes.len() ==> (#[trigger] self.stakes[i]).total == self.stakes[i].type_sum()
        &&& forall|i: int, j: int| 0 <= i < j < self.addresses.len() ==> self.addresses[i] != self.addresses[j]
    }

    /// The id of the user with address `a`, or 0 when it has none.
    pub open spec fn user_id(self, a: Seq<u8>) -> int {
        if exists|i: int| 0 <= i < self.addresses.len() && self.addresses[i] == a {
            (choose|i: int| 0 <= i < self.addresses.len() && self.addresses[i] == a) + 1
        } else {
            0
        }
    }

    /// Total stake of user `id`; unknown ids hold none.
    pub open spec fn stake_total(self, id: int) -> int {
        if 0 <= id < self.stakes.len() { self.stakes[id].total as int } else { 0 }
    }

    /// Stake of type `t` held by user `id`; unknown ids hold none.
    pub open spec fn stake_of(self, id: int, t: FundType) -> int {
        if 0 <= id < self.stakes.len() { self.stakes[id].of(t) as int } else { 0 }
    }
}

pub proof fn lemma_user_id(v: LedgerView, a: Seq<u8>, i: int)
    requires
        v.wf(),
        0 <= i < v.addresses.len(),
        v.addresses[i] == a,
    ensures
        v.user_id(a) == i + 1,
{
    let k = choose|k: int| 0 <= k < v.addresses.len() && v.addresses[k] == a;
    if k != i {
        if k < i {
            assert(v.addresses[k] != v.addresses[i]);
        } else {
            assert(v.addresses[i] != v.addresses[k]);
        }
    }
}

/// Every balance of a user is bounded by the aggregate of its type, and so
/// by the grand total.
pub proof fn lemma_user_bounded(v: LedgerView, i: int, t: FundType)
    requires
        v.wf(),
        1 <= i < v.stakes.len(),
    ensures
        v.stakes[i].of(t) <= v.stakes[0].of(t),
{
    lemma_sum_bound(v.stakes, t, 1, i, v.stakes.len() as int);
}

/// An ordered transform of at most the aggregate of the source type keeps
/// every aggregate equal to the sum over the users.
pub proof fn lemma_transformed_sums(v: LedgerView, from: FundType, to: FundType, amount: int, order: SweepOrder)
    requires
        v.wf(),
        from != to,
        0 <= amount <= v.stakes[0].of(from),
    ensures
        forall|t: FundType| #[trigger] transformed(v.stakes, from, to, amount, order)[0].of(t)
            == sum_of(transformed(v.stakes, from, to, amount, order), t, 1, v.stakes.len() as int),
{
    let s = v.stakes;
    let n = transformed(s, from, to, amount, order);
    let len = s.len() as int;
    assert forall|j: int| 1 <= j < len implies s[j].of(to) + s[j].of(from) <= u64::MAX by {
        lemma_user_bounded(v, j, to);
        lemma_user_bounded(v, j, from);
    }
    lemma_moved_diff(s[0], from, to, amount);
    match order {
        SweepOrder::Ascending => lemma_asc_prefix(s, from, to, amount, len),
        SweepOrder::Descending => lemma_desc_suffix(s, from, to, amount, 1),
    }
    assert forall|t: FundType| #[trigger] n[0].of(t) == sum_of(n, t, 1, len) by {
        assert(n[0].of(t) - s[0].of(t) == move_delta(from, to, amount, t));
        assert(s[0].of(t) == sum_of(s, t, 1, len));
    }
}

/// An ordered transform keeps every user's total equal to the sum of its balances.
pub proof fn lemma_transformed_totals(v: LedgerView, from: FundType, to: FundType, amount: int, order: SweepOrder)
    requires
        v.wf(),
        from != to,
        0 <= amount <= v.stakes[0].of(from),
    ensures
        forall|i: int| 0 <= i < v.stakes.len() ==>
            (#[trigger] transformed(v.stakes, from, to, amount, order)[i]).total
                == transformed(v.stakes, from, to, amount, order)[i].type_sum(),
{
    let s = v.stakes;
    let n = transformed(s, from, to, amount, order);
    let len = s.len() as int;
    assert forall|i: int| 0 <= i < len implies (#[trigger] n[i]).total == n[i].type_sum() by {
        assert(s[i].total == s[i].type_sum());
        lemma_two_le_sum(s[i], from, to);
        if i > 0 {
            lemma_moved_diff(s[i], from, to, draw(s, from, amount, order, i));
        } else {
            lemma_moved_diff(s[0], from, to, amount);
        }
    }
}

/// An ordered transform of at most the aggregate of the source type keeps
/// the ledger well formed.
pub proof fn lemma_transformed_wf(v: LedgerView, from: FundType, to: FundType, amount: int, order: SweepOrder)
    requires
        v.wf(),
        from != to,
        0 <= amount <= v.stakes[0].of(from),
    ensures
        (LedgerView { stakes: transformed(v.stakes, from, to, amount, order), addresses: v.addresses }).wf(),
{
    lemma_transformed_sums(v, from, to, amount, order);
    lemma_transformed_totals(v, from, to, amount, order);
}

/// Conservation under lifecycle transforms: an ordered transform of at most
/// the aggregate of the source type keeps every aggregate equal to the sum
/// over the users and every user's total equal to the sum of its balances,
/// and changes no user's total stake.
pub proof fn lemma_transform_conserves(v: LedgerView, from: FundType, to: FundType, amount: int, order: SweepOrder)
    requires
        v.wf(),
        from != to,
        0 <= amount <= v.stakes[0].of(from),
    ensures
        (LedgerView { stakes: transformed(v.stakes, from, to, amount, order), addresses: v.addresses }).wf(),
        forall|i: int| 0 <= i < v.stakes.len() ==>
            (#[trigger] transformed(v.stakes, from, to, amount, order)[i]).total == v.stakes[i].total,
        transformed(v.stakes, from, to, amount, order)[0].of(from) == v.stakes[0].of(from) - amount,
        transformed(v.stakes, from, to, amount, order)[0].of(to) == v.stakes[0].of(to) + amount,
{
    lemma_transformed_wf(v, from, to, amount, order);
    let s = v.stakes;
    let n = transformed(s, from, to, amount, order);
    assert forall|i: int| 0 <= i < s.len() implies (#[trigger] n[i]).total == s[i].total by {
        assert(s[i].total == s[i].type_sum());
        lemma_two_le_sum(s[i], from, to);
        if i > 0 {
            lemma_moved_diff(s[i], from, to, draw(s, from, amount, order, i));
        } else {
            lemma_moved_diff(s[0], from, to, amount);
        }
    }
    assert(s[0].total == s[0].type_sum());
    lemma_two_le_sum(s[0], from, to);
    lemma_moved(s[0], from, to, amount);
}

/// An ordered transform leaves every balance of a third fund type alone.
pub proof fn lemma_transform_keeps(v: LedgerView, from: FundType, to: FundType, amount: int, order: SweepOrder, t: FundType)
    requires
        v.wf(),
        from != to,
        t != from,
        t != to,
        0 <= amount <= v.stakes[0].of(from),
    ensures
        forall|j: int| 0 <= j < v.stakes.len() ==>
            (#[trigger] transformed(v.stakes, from, to, amount, order)[j]).of(t) == v.stakes[j].of(t),
{
    let s = v.stakes;
    let n = transformed(s, from, to, amount, order);
    assert forall|j: int| 0 <= j < s.len() implies (#[trigger] n[j]).of(t) == s[j].of(t) by {
        assert(s[j].total == s[j].type_sum());
        lemma_two_le_sum(s[j], from, to);
        if j > 0 {
            lemma_moved_diff(s[j], from, to, draw(s, from, amount, order, j));
            assert(n[j].of(t) - s[j].of(t) == move_delta(from, to, draw(s, from, amount, order, j), t));
        } else {
            lemma_moved_diff(s[0], from, to, amount);
            assert(n[0].of(t) - s[0].of(t) == move_delta(from, to, amount, t));
        }
    }
}

/// Ordering of the sweeps: an ascending sweep draws from a user only once
/// every user with a lower id has given up all its stake of the source
/// type; a descending sweep likewise for the users with higher ids.
pub proof fn lemma_sweep_order(s: Seq<UserStake>, t: FundType, amount: int, i: int, j: int)
    requires
        1 <= i < j < s.len(),
    ensures
        draw(s, t, amount, SweepOrder::Ascending, j) > 0 ==> draw(s, t, amount, SweepOrder::Ascending, i) == s[i].of(t),
        draw(s, t, amount, SweepOrder::Descending, i) > 0 ==> draw(s, t, amount, SweepOrder::Descending, j) == s[j].of(t),
{
    let len = s.len() as int;
    lemma_sum_split(s, t, 1, i + 1, j);
    lemma_sum_nonneg(s, t, i + 1, j);
    assert(sum_of(s, t, 1, i + 1) == sum_of(s, t, 1, i) + s[i].of(t));
    lemma_sum_split(s, t, i + 1, j, len);
    lemma_sum_front(s, t, j, len);
}

/// Replacing one user's stake and the aggregate by values that differ from
/// the old ones by the same amount in every fund type keeps the ledger well formed.
pub proof fn lemma_update_user(v: LedgerView, i: int, u: UserStake, agg: UserStake)
    requires
        v.wf(),
        1 <= i < v.stakes.len(),
        forall|t: FundType| #[trigger] u.of(t) - v.stakes[i].of(t) == agg.of(t) - v.stakes[0].of(t),
        u.total == u.type_sum(),
        agg.total == agg.type_sum(),
    ensures
        (LedgerView { stakes: v.stakes.update(i, u).update(0, agg), addresses: v.addresses }).wf(),
{
    let s1 = v.stakes.update(i, u);
    let s2 = s1.update(0, agg);
    let len = v.stakes.len() as int;
    assert forall|t: FundType| #[trigger] s2[0].of(t) == sum_of(s2, t, 1, len) by {
        lemma_sum_update(v.stakes, t, 1, len, i, u);
        lemma_sum_ext(s1, s2, t, 1, len);
        assert(v.stakes[0].of(t) == sum_of(v.stakes, t, 1, len));
    }
}

/// The stake after `a` was added to type `t` and to the total.
pub open spec fn credited(u: UserStake, t: FundType, a: int) -> UserStake {
    UserStake { total: (u.total + a) as u64, ..u.set_spec(t, (u.of(t) + a) as u64) }
}

/// The stake after `a` was taken from type `t` and from the total.
pub open spec fn debited(u: UserStake, t: FundType, a: int) -> UserStake {
    UserStake { total: (u.total - a) as u64, ..u.set_spec(t, (u.of(t) - a) as u64) }
}

pub proof fn lemma_credited(u: UserStake, t: FundType, a: int)
    requires
        0 <= a,
        u.total == u.type_sum(),
        u.total + a <= u64::MAX,
    ensures
        forall|t2: FundType| #[trigger] credited(u, t, a).of(t2) - u.of(t2) == (if t2 == t { a } else { 0 }),
        credited(u, t, a).total == credited(u, t, a).type_sum(),
        credited(u, t, a).total == u.total + a,
{
    lemma_one_le_sum(u, t);
    let w = u.set_spec(t, (u.of(t) + a) as u64);
    lemma_set_spec(u, t, (u.of(t) + a) as u64);
    assert forall|t2: FundType| #[trigger] credited(u, t, a).of(t2) - u.of(t2) == (if t2 == t { a } else { 0 }) by {
        assert(credited(u, t, a).of(t2) == w.of(t2));
    }
}

pub proof fn lemma_debited(u: UserStake, t: FundType, a: int)
    requires
        0 <= a <= u.of(t),
        u.total == u.type_sum(),
    ensures
        forall|t2: FundType| #[trigger] debited(u, t, a).of(t2) - u.of(t2) == (if t2 == t { -a } else { 0 }),
        debited(u, t, a).total == debited(u, t, a).type_sum(),
        debited(u, t, a).total == u.total - a,
{
    lemma_one_le_sum(u, t);
    let w = u.set_spec(t, (u.of(t) - a) as u64);
    lemma_set_spec(u, t, (u.of(t) - a) as u64);
    assert forall|t2: FundType| #[trigger] debited(u, t, a).of(t2) - u.of(t2) == (if t2 == t { -a } else { 0 }) by {
        assert(debited(u, t, a).of(t2) == w.of(t2));
    }
}

/// Taking an amount from a balance and giving it back restores the stake.
pub proof fn lemma_debit_credit_cancel(u: UserStake, t: FundType, a: int)
    requires
        0 <= a <= u.of(t),
        a <= u.total,
    ensures
        credited(debited(u, t, a), t, a) == u,
{
    reveal(UserStake::set_spec);
}

/// A user's total is at most the grand total held by the totals pseudo-user.
pub proof fn lemma_user_total_bounded(v: LedgerView, i: int)
    requires
        v.wf(),
        1 <= i < v.stakes.len(),
    ensures
        v.stakes[i].total <= v.stakes[0].total,
{
    lemma_user_bounded(v, i, FundType::Inactive);
    lemma_user_bounded(v, i, FundType::PendingActivation);
    lemma_user_bounded(v, i, FundType::Active);
    lemma_user_bounded(v, i, FundType::PendingDeactivation);
    lemma_user_bounded(v, i, FundType::UnBondPeriod);
    lemma_user_bounded(v, i, FundType::PendingUnBond);
    lemma_user_bounded(v, i, FundType::WithdrawOnly);
    lemma_user_bounded(v, i, FundType::StakeForSale);
    assert(v.stakes[i].total == v.stakes[i].type_sum());
    assert(v.stakes[0].total == v.stakes[0].type_sum());
}

/// The ledger with a user for `address` (a new one, holding nothing, is
/// appended when it has none).
pub open spec fn with_user(l: LedgerView, address: Seq<u8>) -> LedgerView {
    if l.user_id(address) != 0 {
        l
    } else {
        LedgerView { stakes: l.stakes.push(UserStake::zero_spec()), addresses: l.addresses.push(address) }
    }
}

/// The ledger after `amount` was deposited as inactive stake by `address`.
pub open spec fn deposited(l: LedgerView, address: Seq<u8>, amount: int) -> LedgerView {
    let base = with_user(l, address);
    let id = base.user_id(address);
    LedgerView {
        stakes: base.stakes
            .update(id, credited(base.stakes[id], FundType::Inactive, amount))
            .update(0, credited(base.stakes[0], FundType::Inactive, amount)),
        addresses: base.addresses,
    }
}

/// Per-delegator stake balances, split by fund type, and their aggregates.
pub struct FundLedger {
    stakes: Vec<UserStake>,
    addresses: Vec<Vec<u8>>,
}

impl View for FundLedger {
    type V = LedgerView;

    closed spec fn view(&self) -> LedgerView {
        LedgerView { stakes: self.stakes@, addresses: self.addresses@.map_values(|a: Vec<u8>| a@) }
    }
}

impl FundLedger {
    pub open spec fn wf(&self) -> bool {
        self@.wf()
    }

    /// A ledger with no users.
    pub fn new() -> (r: FundLedger)
        ensures
            r.wf(),
            r@.num_users() == 0,
            forall|t: FundType| r@.stakes[0].of(t) == 0,
    {
        let mut stakes: Vec<UserStake> = Vec::new();
        stakes.push(UserStake::zero());
        let r = FundLedger { stakes, addresses: Vec::new() };
        proof {
            assert(r@.addresses =~= Seq::<Seq<u8>>::empty());
            assert forall|t: FundType| #[trigger] r@.stakes[0].of(t) == sum_of(r@.stakes, t, 1, 1) by {
                assert(sum_of(r@.stakes, t, 1, 1) == 0);
            }
        }
        r
    }

    pub fn get_num_users(&self) -> (r: usize)
        requires
            self.wf(),
        ensures
            r == self@.num_users(),
    {
        self.addresses.len()
    }

    /// The id of the user with address `address`, 0 if it is not a delegator.
    pub fn get_user_id(&self, address: &Vec<u8>) -> (r: usize)
        requires
            self.wf(),
        ensures
            r == self@.user_id(address@),
            r <= self@.num_users(),
    {
        proof { self.lemma_view_addresses(); }
        match find_bytes(&self.addresses, address) {
            Some(i) => {
                proof { lemma_user_id(self@, address@, i as int); }
                i + 1
            },
            None => 0,
        }
    }

    /// Balance of type `t` of user `user_id` (0 for unknown ids).
    pub fn get_user_stake_of_type(&self, user_id: usize, t: FundType) -> (r: u64)
        requires
            self.wf(),
        ensures
            r == self@.stake_of(user_id as int, t),
    {
        if user_id < self.stakes.len() {
            self.stakes[user_id].get(t)
        } else {
            0
        }
    }

    /// Total stake of user `user_id` (0 for unknown ids).
    pub fn get_user_total_stake(&self, user_id: usize) -> (r: u64)
        requires
            self.wf(),
        ensures
            user_id < self@.stakes.len() ==> r == self@.stakes[user_id as int].total,
            user_id >= self@.stakes.len() ==> r == 0,
    {
        if user_id < self.stakes.len() {
            self.stakes[user_id].total
        } else {
            0
        }
    }

    proof fn lemma_view_addresses(&self)
        ensures
            self.addresses@.len() == self@.addresses.len(),
            forall|i: int| 0 <= i < self.addresses@.len() ==> #[trigger] self.addresses@[i]@ == self@.addresses[i],
    {
    }

    /// Draws up to `remaining` of user `user_id`'s `from` stake into `to`,
    /// and yields what is left to draw.
    pub fn transform_user_stake(&mut self, user_id: usize, from: FundType, to: FundType, remaining: u64) -> (r: u64)
        requires
            old(self).wf(),
            1 <= user_id < old(self)@.stakes.len(),
        ensures
            final(self).wf(),
            r == remaining - min(remaining as int, old(self)@.stakes[user_id as int].of(from) as int),
            from == to ==> final(self)@ == old(self)@,
            final(self)@.addresses == old(self)@.addresses,
            from != to ==> final(self)@.stakes == old(self)@.stakes
                .update(user_id as int, old(self)@.stakes[user_id as int].moved(from, to, remaining - r))
                .update(0, old(self)@.stakes[0].moved(from, to, remaining - r)),
    {
        let ghost v = self@;
        let mut u = self.stakes[user_id];
        let mut agg = self.stakes[0];
        let bal = u.get(from);
        let d = if remaining > bal { bal } else { remaining };
        if from == to {
            return remaining - d;
        }
        proof {
            lemma_user_bounded(v, user_id as int, from);
            assert(u.total == u.type_sum() && agg.total == agg.type_sum());
            lemma_two_le_sum(u, from, to);
            lemma_two_le_sum(agg, from, to);
            lemma_moved_diff(u, from, to, d as int);
            lemma_moved_diff(agg, from, to, d as int);
        }
        let ut = u.get(to);
        u.set(from, bal - d);
        u.set(to, ut + d);
        let at = agg.get(to);
        let af = agg.get(from);
        agg.set(from, af - d);
        agg.set(to, at + d);
        self.stakes.set(user_id, u);
        self.stakes.set(0, agg);
        proof {
            assert(u == v.stakes[user_id as int].moved(from, to, d as int));
            assert(agg == v.stakes[0].moved(from, to, d as int));
            lemma_update_user(v, user_id as int, u, agg);
            assert(self@.addresses =~= v.addresses);
        }
        remaining - d
    }

    /// Moves `amount` of stake from `from` to `to`, drawn from the users in
    /// ascending id order. Fails, changing nothing, when the aggregate of
    /// `from` is smaller than `amount`.
    pub fn transform_user_stake_asc(&mut self, from: FundType, to: FundType, amount: u64) -> (r: Result<(), DelegationError>)
        requires
            old(self).wf(),
        ensures
            final(self).wf(),
            r is Ok <==> amount <= old(self)@.stakes[0].of(from),
            r is Ok && from == to ==> final(self)@ == old(self)@,
            r is Ok && from != to ==> final(self)@ == (LedgerView {
                stakes: transformed(old(self)@.stakes, from, to, amount as int, SweepOrder::Ascending),
                addresses: old(self)@.addresses,
            }),
            r is Err ==> r == Err::<(), DelegationError>(DelegationError::InsufficientFunds) && final(self)@ == old(self)@,
    {
        if amount > self.stakes[0].get(from) {
            return Err(DelegationError::InsufficientFunds);
        }
        if from == to {
            return Ok(());
        }
        let ghost s0 = self.stakes@;
        let ghost v = self@;
        let ghost target = transformed(s0, from, to, amount as int, SweepOrder::Ascending);
        let n = self.stakes.len();
        proof {
            assert forall|j: int| 1 <= j < n implies #[trigger] s0[j].of(from) + s0[j].of(to) <= u64::MAX by {
                assert(s0[j].total == s0[j].type_sum());
                lemma_two_le_sum(s0[j], from, to);
            }
        }
        let mut remaining = amount;
        let mut i: usize = 1;
        while i < n
            invariant
                forall|j: int| 1 <= j < n ==> #[trigger] s0[j].of(from) + s0[j].of(to) <= u64::MAX,
                from != to,
                amount <= s0[0].of(from),
                n == s0.len(),
                self.stakes@.len() == n,
                1 <= i <= n,
                remaining == clip(amount - sum_of(s0, from, 1, i as int)),
                forall|j: int| 1 <= j < i ==> self.stakes@[j] == target[j],
                forall|j: int| (i <= j < n || j == 0) ==> self.stakes@[j] == s0[j],
                self.addresses == old(self).addresses,
                target == transformed(s0, from, to, amount as int, SweepOrder::Ascending),
            decreases n - i,
        {
            let mut u = self.stakes[i];
            let bal = u.get(from);
            let d = if remaining > bal { bal } else { remaining };
            let ut = u.get(to);
            proof {
                lemma_sum_nonneg(s0, from, 1, i as int);
                assert(sum_of(s0, from, 1, i + 1) == sum_of(s0, from, 1, i as int) + bal);
            }
            u.set(from, bal - d);
            u.set(to, ut + d);
            self.stakes.set(i, u);
            remaining = remaining - d;
            i = i + 1;
        }
        let mut agg = self.stakes[0];
        let af = agg.get(from);
        let at = agg.get(to);
        agg.set(from, af - amount);
        agg.set(to, at + amount);
        self.stakes.set(0, agg);
        proof {
            assert(self.stakes@ =~= target);
            assert(self@.addresses =~= v.addresses);
            lemma_transformed_wf(v, from, to, amount as int, SweepOrder::Ascending);
        }
        Ok(())
    }

    /// Moves `amount` of stake from `from` to `to`, drawn from the users in
    /// descending id order. Fails, changing nothing, when the aggregate of
    /// `from` is smaller than `amount`.
    pub fn transform_user_stake_desc(&mut self, from: FundType, to: FundType, amount: u64) -> (r: Result<(), DelegationError>)
        requires
            old(self).wf(),
        ensures
            final(self).wf(),
            r is Ok <==> amount <= old(self)@.stakes[0].of(from),
            r is Ok && from == to ==> final(self)@ == old(self)@,
            r is Ok && from != to ==> final(self)@ == (LedgerView {
                stakes: transformed(old(self)@.stakes, from, to, amount as int, SweepOrder::Descending),
                addresses: old(self)@.addresses,
            }),
            r is Err ==> r == Err::<(), DelegationError>(DelegationError::InsufficientFunds) && final(self)@ == old(self)@,
    {
        if amount > self.stakes[0].get(from) {
            return Err(DelegationError::InsufficientFunds);
        }
        if from == to {
            return Ok(());
        }
        let ghost s0 = self.stakes@;
        let ghost v = self@;
        let ghost target = transformed(s0, from, to, amount as int, SweepOrder::Descending);
        let n = self.stakes.len();
        proof {
            assert forall|j: int| 1 <= j < n implies #[trigger] s0[j].of(from) + s0[j].of(to) <= u64::MAX by {
                assert(s0[j].total == s0[j].type_sum());
                lemma_two_le_sum(s0[j], from, to);
            }
        }
        let mut remaining = amount;
        let mut i: usize = n - 1;
        while i >= 1
            invariant
                forall|j: int| 1 <= j < n ==> #[trigger] s0[j].of(from) + s0[j].of(to) <= u64::MAX,
                from != to,
                amount <= s0[0].of(from),
                n == s0.len(),
                n >= 1,
                self.stakes@.len() == n,
                0 <= i < n,
                remaining == clip(amount - sum_of(s0, from, i + 1, n as int)),
                forall|j: int| i < j < n ==> self.stakes@[j] == target[j],
                forall|j: int| 0 <= j <= i ==> self.stakes@[j] == s0[j],
                self.addresses == old(self).addresses,
                target == transformed(s0, from, to, amount as int, SweepOrder::Descending),
            decreases i,
        {
            let mut u = self.stakes[i];
            let bal = u.get(from);
            let d = if remaining > bal { bal } else { remaining };
            let ut = u.get(to);
            proof {
                lemma_sum_nonneg(s0, from, i + 1, n as int);
                lemma_sum_front(s0, from, i as int, n as int);
            }
            u.set(from, bal - d);
            u.set(to, ut + d);
            self.stakes.set(i, u);
            remaining = remaining - d;
            i = i - 1;
        }
        let mut agg = self.stakes[0];
        let af = agg.get(from);
        let at = agg.get(to);
        agg.set(from, af - amount);
        agg.set(to, at + amount);
        self.stakes.set(0, agg);
        proof {
            assert(self.stakes@ =~= target);
            assert(self@.addresses =~= v.addresses);
            lemma_transformed_wf(v, from, to, amount as int, SweepOrder::Descending);
        }
        Ok(())
    }

    /// Registers `address` as the next user, with no stake.
    pub fn new_user(&mut self, address: &Vec<u8>) -> (r: usize)
        requires
            old(self).wf(),
            old(self)@.user_id(address@) == 0,
            old(self)@.stakes.len() < usize::MAX,
        ensures
            final(self).wf(),
            r == old(self)@.num_users() + 1,
            final(self)@.stakes == old(self)@.stakes.push(UserStake::zero_spec()),
            final(self)@.addresses == old(self)@.addresses.push(address@),
            final(self)@.user_id(address@) == r,
    {
        let ghost v = self@;
        let z = UserStake::zero();
        self.stakes.push(z);
        self.addresses.push(address.clone());
        let r = self.addresses.len();
        proof {
            let len = v.stakes.len() as int;
            assert(self@.addresses =~= v.addresses.push(address@));
            assert forall|t: FundType| #[trigger] self@.stakes[0].of(t) == sum_of(self@.stakes, t, 1, len + 1) by {
                lemma_sum_ext(v.stakes, self@.stakes, t, 1, len);
                assert(v.stakes[0].of(t) == sum_of(v.stakes, t, 1, len));
            }
            assert(!(exists|i: int| 0 <= i < v.addresses.len() && v.addresses[i] == address@));
            assert(self@.wf());
            lemma_user_id(self@, address@, r - 1);
        }
        r
    }

    /// Adds `amount` to balance `t` and the total of user `user_id`, and to the aggregates.
    fn credit(&mut self, user_id: usize, t: FundType, amount: u64)
        requires
            old(self).wf(),
            1 <= user_id < old(self)@.stakes.len(),
            old(self)@.stakes[0].total + amount <= u64::MAX,
        ensures
            final(self).wf(),
            final(self)@.addresses == old(self)@.addresses,
            final(self)@.stakes == old(self)@.stakes
                .update(user_id as int, credited(old(self)@.stakes[user_id as int], t, amount as int))
                .update(0, credited(old(self)@.stakes[0], t, amount as int)),
    {
        let ghost v = self@;
        proof {
            lemma_user_total_bounded(v, user_id as int);
            lemma_credited(v.stakes[user_id as int], t, amount as int);
            lemma_credited(v.stakes[0], t, amount as int);
        }
        let mut u = self.stakes[user_id];
        let mut agg = self.stakes[0];
        let ub = u.get(t);
        let ab = agg.get(t);
        let ut = u.total;
        let at = agg.total;
        proof {
            lemma_one_le_sum(u, t);
            lemma_one_le_sum(agg, t);
        }
        u.set(t, ub + amount);
        u.total = ut + amount;
        agg.set(t, ab + amount);
        agg.total = at + amount;
        self.stakes.set(user_id, u);
        self.stakes.set(0, agg);
        proof {
            lemma_update_user(v, user_id as int, u, agg);
            assert(self@.addresses =~= v.addresses);
        }
    }

    /// Takes `amount` from balance `t` and the total of user `user_id`, and from the aggregates.
    fn debit(&mut self, user_id: usize, t: FundType, amount: u64)
        requires
            old(self).wf(),
            1 <= user_id < old(self)@.stakes.len(),
            amount <= old(self)@.stakes[user_id as int].of(t),
        ensures
            final(self).wf(),
            final(self)@.addresses == old(self)@.addresses,
            final(self)@.stakes == old(self)@.stakes
                .update(user_id as int, debited(old(self)@.stakes[user_id as int], t, amount as int))
                .update(0, debited(old(self)@.stakes[0], t, amount as int)),
    {
        let ghost v = self@;
        proof {
            lemma_user_bounded(v, user_id as int, t);
            lemma_debited(v.stakes[user_id as int], t, amount as int);
            lemma_debited(v.stakes[0], t, amount as int);
        }
        let mut u = self.stakes[user_id];
        let mut agg = self.stakes[0];
        let ub = u.get(t);
        let ab = agg.get(t);
        let ut = u.total;
        let at = agg.total;
        proof {
            lemma_one_le_sum(u, t);
            lemma_one_le_sum(agg, t);
        }
        u.set(t, ub - amount);
        u.total = ut - amount;
        agg.set(t, ab - amount);
        agg.total = at - amount;
        self.stakes.set(user_id, u);
        self.stakes.set(0, agg);
        proof {
            lemma_update_user(v, user_id as int, u, agg);
            assert(self@.addresses =~= v.addresses);
        }
    }

    /// Adds `amount` to the inactive stake of `address`, which becomes the
    /// next user if it is not one yet. Yields the user's id. Fails, changing
    /// nothing, when the grand total would overflow.
    pub fn deposit(&mut self, address: &Vec<u8>, amount: u64) -> (r: Result<usize, DelegationError>)
        requires
            old(self).wf(),
        ensures
            final(self).wf(),
            r is Err <==> old(self)@.stakes[0].total + amount > u64::MAX
                || (old(self)@.user_id(address@) == 0 && old(self)@.stakes.len() >= usize::MAX - 1),
            r is Err ==> r == Err::<usize, DelegationError>(DelegationError::Overflow) && final(self)@ == old(self)@,
            r matches Ok(id) ==> {
                &&& id == with_user(old(self)@, address@).user_id(address@)
                &&& id == (if old(self)@.user_id(address@) != 0 { old(self)@.user_id(address@) } else { old(self)@.num_users() + 1 })
                &&& final(self)@ == deposited(old(self)@, address@, amount as int)
            },
    {
        let mut id = self.get_user_id(address);
        if amount > u64::MAX - self.stakes[0].total {
            return Err(DelegationError::Overflow);
        }
        if id == 0 {
            if self.stakes.len() >= usize::MAX - 1 {
                return Err(DelegationError::Overflow);
            }
            id = self.new_user(address);
        }
        let ghost mid = self@;
        self.credit(id, FundType::Inactive, amount);
        proof {
            lemma_user_id(mid, address@, id - 1);
            assert(self@.stakes =~= mid.stakes
                .update(id as int, credited(mid.stakes[id as int], FundType::Inactive, amount as int))
                .update(0, credited(mid.stakes[0], FundType::Inactive, amount as int)));
        }
        Ok(id)
    }

    /// Takes `amount` from the inactive stake of `address`. Fails, changing
    /// nothing, when `address` is no user or holds less inactive stake.
    pub fn withdraw_inactive_stake(&mut self, address: &Vec<u8>, amount: u64) -> (r: Result<usize, DelegationError>)
        requires
            old(self).wf(),
        ensures
            final(self).wf(),
            old(self)@.user_id(address@) == 0 ==> r == Err::<usize, DelegationError>(DelegationError::UnknownCaller),
            old(self)@.user_id(address@) != 0
                && amount > old(self)@.stake_of(old(self)@.user_id(address@), FundType::Inactive)
                ==> r == Err::<usize, DelegationError>(DelegationError::InsufficientFunds),
            old(self)@.user_id(address@) != 0
                && amount <= old(self)@.stake_of(old(self)@.user_id(address@), FundType::Inactive)
                ==> r is Ok,
            r is Err ==> final(self)@ == old(self)@,
            r matches Ok(id) ==> id == old(self)@.user_id(address@) && id != 0
                && amount <= old(self)@.stake_of(id as int, FundType::Inactive)
                && final(self)@ == (LedgerView {
                    stakes: old(self)@.stakes
                        .update(id as int, debited(old(self)@.stakes[id as int], FundType::Inactive, amount as int))
                        .update(0, debited(old(self)@.stakes[0], FundType::Inactive, amount as int)),
                    addresses: old(self)@.addresses,
                }),
    {
        let id = self.get_user_id(address);
        if id == 0 {
            return Err(DelegationError::UnknownCaller);
        }
        if amount > self.stakes[id].get(FundType::Inactive) {
            return Err(DelegationError::InsufficientFunds);
        }
        self.debit(id, FundType::Inactive, amount);
        Ok(id)
    }

    /// Moves `amount` of active stake, and as much total stake, from user
    /// `seller_id` to user `buyer_id`. Fails, changing nothing, when the
    /// seller holds less active stake.
    pub fn transfer_active_stake(&mut self, seller_id: usize, buyer_id: usize, amount: u64) -> (r: Result<(), DelegationError>)
        requires
            old(self).wf(),
            1 <= seller_id < old(self)@.stakes.len(),
            1 <= buyer_id < old(self)@.stakes.len(),
        ensures
            final(self).wf(),
            r is Ok <==> amount <= old(self)@.stakes[seller_id as int].active,
            r is Err ==> r == Err::<(), DelegationError>(DelegationError::PaymentExceedsOffer) && final(self)@ == old(self)@,
            r is Ok ==> final(self)@.addresses == old(self)@.addresses
                && final(self)@.stakes[0] == old(self)@.stakes[0]
                && (seller_id != buyer_id ==> {
                    &&& final(self)@.stakes[seller_id as int] == debited(old(self)@.stakes[seller_id as int], FundType::Active, amount as int)
                    &&& final(self)@.stakes[buyer_id as int] == credited(old(self)@.stakes[buyer_id as int], FundType::Active, amount as int)
                })
                && (seller_id == buyer_id ==> final(self)@.stakes[seller_id as int] == old(self)@.stakes[seller_id as int])
                && forall|j: int| 1 <= j < old(self)@.stakes.len() && j != seller_id && j != buyer_id ==>
                    final(self)@.stakes[j] == old(self)@.stakes[j],
    {
        if amount > self.stakes[seller_id].active {
            return Err(DelegationError::PaymentExceedsOffer);
        }
        let ghost v = self@;
        proof {
            lemma_user_bounded(v, seller_id as int, FundType::Active);
            lemma_one_le_sum(v.stakes[0], FundType::Active);
        }
        self.debit(seller_id, FundType::Active, amount);
        self.credit(buyer_id, FundType::Active, amount);
        proof {
            lemma_user_total_bounded(v, seller_id as int);
            lemma_one_le_sum(v.stakes[seller_id as int], FundType::Active);
            lemma_debit_credit_cancel(v.stakes[0], FundType::Active, amount as int);
            lemma_debit_credit_cancel(v.stakes[seller_id as int], FundType::Active, amount as int);
        }
        Ok(())
    }

    /// Ordered transform in the given order. A transform to the same fund
    /// type moves nothing.
    pub fn transform(&mut self, from: FundType, to: FundType, amount: u64, order: SweepOrder) -> (r: Result<(), DelegationError>)
        requires
            old(self).wf(),
        ensures
            final(self).wf(),
            r is Ok <==> amount <= old(self)@.stakes[0].of(from),
            r is Ok && from == to ==> final(self)@ == old(self)@,
            r is Ok && from != to ==> final(self)@ == (LedgerView {
                stakes: transformed(old(self)@.stakes, from, to, amount as int, order),
                addresses: old(self)@.addresses,
            }),
            r is Err ==> r == Err::<(), DelegationError>(DelegationError::InsufficientFunds) && final(self)@ == old(self)@,
    {
        match order {
            SweepOrder::Ascending => self.transform_user_stake_asc(from, to, amount),
            SweepOrder::Descending => self.transform_user_stake_desc(from, to, amount),
        }
    }
}
} // verus!
