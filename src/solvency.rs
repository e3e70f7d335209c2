use vstd::prelude::*;
use crate::types::{FundType, OWNER_USER_ID};
use crate::ledger::{LedgerView, sum_of};
use crate::rewards::{RewardsView, UserRewardData, updated_unclaimed, delegator_part, service_part,
    lemma_split_bounds, lemma_share_bound, lemma_unclaimed_nonneg};

verus! {
/// Total active stake, or 1 when there is none: the scale at which each
/// user's fraction of new rewards is an integer weight.
pub open spec fn active_scale(l: LedgerView) -> int {
    if l.stakes[0].active == 0 { 1 } else { l.stakes[0].active as int }
}

/// User `i`'s share of each newly arrived reward unit, scaled by
/// `10000 * active_scale(l)`: the service fee for the owner, and the
/// delegator part pro rata to its active stake.
pub open spec fn weight(fee: int, l: LedgerView, i: int) -> int {
    (if i == OWNER_USER_ID { fee * active_scale(l) } else { 0 }) + (10000 - fee) * l.stakes[i].active
}

/// What user `i` is owed, scaled by `10000 * active_scale(l)`: its stored
/// unclaimed rewards, and its weight on the rewards since its checkpoint.
pub open spec fn owed_term(v: RewardsView, l: LedgerView, i: int) -> int {
    10000 * active_scale(l) * v.users[i].unclaimed_rewards
        + weight(v.service_fee, l, i) * (v.total_cumulated_rewards - v.users[i].reward_checkpoint)
}

/// Sum of `owed_term` over users `1..n`.
pub open spec fn owed_sum(v: RewardsView, l: LedgerView, n: int) -> int
    decreases n,
{
    if n <= 1 { 0 } else { owed_sum(v, l, n - 1) + owed_term(v, l, n - 1) }
}

/// Rewards sent plus everything owed to the users stays within the rewards
/// received.
pub open spec fn solvent(v: RewardsView, l: LedgerView) -> bool {
    10000 * active_scale(l) * v.sent_rewards + owed_sum(v, l, v.users.len() as int)
        <= 10000 * active_scale(l) * v.total_cumulated_rewards
}

/// Every user's checkpoint is the cumulated rewards.
pub open spec fn caught_up(v: RewardsView) -> bool {
    forall|j: int| 1 <= j < v.users.len() ==> (#[trigger] v.users[j]).reward_checkpoint == v.total_cumulated_rewards
}

/// Sum of the stored unclaimed rewards of users `1..n`.
pub open spec fn stored_sum(v: RewardsView, n: int) -> int
    decreases n,
{
    if n <= 1 { 0 } else { stored_sum(v, n - 1) + v.users[n - 1].unclaimed_rewards }
}

/// Sum of the weights of users `1..n`.
pub open spec fn weight_sum(fee: int, l: LedgerView, n: int) -> int
    decreases n,
{
    if n <= 1 { 0 } else { weight_sum(fee, l, n - 1) + weight(fee, l, n - 1) }
}

pub open spec fn both_wf(v: RewardsView, l: LedgerView) -> bool {
    v.wf() && l.wf() && v.users.len() == l.stakes.len()
}

pub proof fn lemma_weight_nonneg(v: RewardsView, l: LedgerView, i: int)
    requires
        both_wf(v, l),
    ensures
        weight(v.service_fee, l, i) >= 0,
{
    let sp = active_scale(l);
    let fee = v.service_fee;
    let a = l.stakes[i].active as int;
    assert(fee * sp >= 0) by (nonlinear_arith) requires fee >= 0, sp >= 1;
    assert((10000 - fee) * a >= 0) by (nonlinear_arith) requires fee <= 10000, a >= 0;
}

pub proof fn lemma_term_nonneg(v: RewardsView, l: LedgerView, i: int)
    requires
        both_wf(v, l),
        0 <= i < v.users.len(),
    ensures
        owed_term(v, l, i) >= 0,
{
    lemma_weight_nonneg(v, l, i);
    let k = 10000 * active_scale(l);
    let w = weight(v.service_fee, l, i);
    let d = v.total_cumulated_rewards - v.users[i].reward_checkpoint;
    let u = v.users[i].unclaimed_rewards as int;
    assert(k * u >= 0) by (nonlinear_arith) requires k >= 0, u >= 0;
    assert(w * d >= 0) by (nonlinear_arith) requires w >= 0, d >= 0;
}

/// What bringing user `i` up to date credits it, scaled, is at most its
/// owed term.
pub proof fn lemma_term_bound(v: RewardsView, l: LedgerView, i: int)
    requires
        both_wf(v, l),
        1 <= i < v.users.len(),
    ensures
        10000 * active_scale(l) * updated_unclaimed(v.total_cumulated_rewards, v.service_fee, v.users[i],
            i == OWNER_USER_ID, l.stakes[i].active as int, l.stakes[0].active as int) <= owed_term(v, l, i),
{
    let sp = active_scale(l);
    let fee = v.service_fee;
    let d = v.total_cumulated_rewards - v.users[i].reward_checkpoint;
    let u = v.users[i].unclaimed_rewards as int;
    let s = l.stakes[i].active as int;
    let tot = l.stakes[0].active as int;
    let w = weight(fee, l, i);
    lemma_weight_nonneg(v, l, i);
    lemma_split_bounds(d, fee);
    let svc = service_part(d, fee);
    let dp = delegator_part(d, fee);
    let own = if i == OWNER_USER_ID { svc } else { 0 };
    let share = if s > 0 { dp * s / tot } else { 0 };
    assert(10000 * svc <= d * fee) by (nonlinear_arith) requires svc == d * fee / 10000, d >= 0, fee >= 0;
    assert(10000 * dp <= d * (10000 - fee)) by (nonlinear_arith)
        requires dp == d * (10000 - fee) / 10000, d >= 0, fee <= 10000;
    assert(10000 * sp * own <= (if i == OWNER_USER_ID { fee * sp } else { 0 }) * d) by {
        if i == OWNER_USER_ID {
            assert(10000 * sp * svc <= fee * sp * d) by (nonlinear_arith)
                requires 10000 * svc <= d * fee, sp >= 1;
        }
    }
    assert(10000 * sp * share <= (10000 - fee) * s * d) by {
        if s > 0 {
            crate::ledger::lemma_user_bounded(l, i, FundType::Active);
            assert(sp == tot);
            assert(tot * share <= dp * s) by (nonlinear_arith) requires share == dp * s / tot, tot > 0;
            assert(10000 * dp * s <= d * (10000 - fee) * s) by (nonlinear_arith)
                requires 10000 * dp <= d * (10000 - fee), s >= 0;
            assert(10000 * sp * share <= (10000 - fee) * s * d) by (nonlinear_arith)
                requires sp == tot, tot * share <= dp * s, 10000 * dp * s <= d * (10000 - fee) * s;
        } else {
            assert((10000 - fee) * s * d >= 0) by (nonlinear_arith) requires s >= 0, d >= 0, fee <= 10000;
        }
    }
    assert(w * d == (if i == OWNER_USER_ID { fee * sp } else { 0 }) * d + (10000 - fee) * s * d) by (nonlinear_arith)
        requires w == (if i == OWNER_USER_ID { fee * sp } else { 0 }) + (10000 - fee) * s;
    if d == 0 {
        assert(w * d == 0) by (nonlinear_arith) requires d == 0;
    } else {
        assert(10000 * sp * (u + own + share) == 10000 * sp * u + 10000 * sp * own + 10000 * sp * share) by (nonlinear_arith);
    }
}

/// Termwise order carries over to the sums.
pub proof fn lemma_owed_le(v1: RewardsView, l1: LedgerView, v2: RewardsView, l2: LedgerView, n: int)
    requires
        forall|j: int| 1 <= j < n ==> #[trigger] owed_term(v1, l1, j) <= owed_term(v2, l2, j),
    ensures
        owed_sum(v1, l1, n) <= owed_sum(v2, l2, n),
    decreases n,
{
    if n > 1 {
        lemma_owed_le(v1, l1, v2, l2, n - 1);
    }
}

/// One term of a sum of nonnegative terms is at most the sum.
pub proof fn lemma_owed_ge_term(v: RewardsView, l: LedgerView, i: int, n: int)
    requires
        both_wf(v, l),
        1 <= i < n <= v.users.len(),
    ensures
        owed_term(v, l, i) <= owed_sum(v, l, n),
        owed_sum(v, l, n) >= 0,
    decreases n,
{
    lemma_term_nonneg(v, l, n - 1);
    if n - 1 > i {
        lemma_owed_ge_term(v, l, i, n - 1);
    } else {
        lemma_owed_nonneg(v, l, n - 1);
    }
}

pub proof fn lemma_owed_nonneg(v: RewardsView, l: LedgerView, n: int)
    requires
        both_wf(v, l),
        n <= v.users.len(),
    ensures
        owed_sum(v, l, n) >= 0,
    decreases n,
{
    if n > 1 {
        lemma_owed_nonneg(v, l, n - 1);
        lemma_term_nonneg(v, l, n - 1);
    }
}

/// Under solvency, every user's up-to-date unclaimed rewards fit in what
/// was received and not yet sent; in particular they fit in 64 bits.
pub proof fn lemma_solvent_bounds(v: RewardsView, l: LedgerView, i: int)
    requires
        both_wf(v, l),
        solvent(v, l),
        1 <= i < v.users.len(),
    ensures
        v.sent_rewards + updated_unclaimed(v.total_cumulated_rewards, v.service_fee, v.users[i],
            i == OWNER_USER_ID, l.stakes[i].active as int, l.stakes[0].active as int) <= v.total_cumulated_rewards,
        v.fits(l, i),
{
    lemma_term_bound(v, l, i);
    lemma_owed_ge_term(v, l, i, v.users.len() as int);
    lemma_unclaimed_nonneg(v, l, i);
    let k = 10000 * active_scale(l);
    let u = updated_unclaimed(v.total_cumulated_rewards, v.service_fee, v.users[i],
        i == OWNER_USER_ID, l.stakes[i].active as int, l.stakes[0].active as int);
    let sent = v.sent_rewards;
    let cum = v.total_cumulated_rewards;
    assert(k * sent + k * u <= k * cum);
    assert(sent + u <= cum) by (nonlinear_arith) requires k * sent + k * u <= k * cum, k >= 1;
}

/// Solvency bounds every user's up-to-date unclaimed rewards at once.
pub proof fn lemma_solvent_all_fit(v: RewardsView, l: LedgerView)
    requires
        both_wf(v, l),
        solvent(v, l),
    ensures
        v.all_fit(l),
{
    assert forall|i: int| 1 <= i < v.users.len() implies #[trigger] v.fits(l, i) by {
        lemma_solvent_bounds(v, l, i);
    }
}

/// Scaled sum of the up-to-date unclaimed rewards is at most the owed sum.
pub proof fn lemma_unclaimed_sum_owed(v: RewardsView, l: LedgerView, n: int)
    requires
        both_wf(v, l),
        n <= v.users.len(),
    ensures
        10000 * active_scale(l) * v.unclaimed_sum(l, n) <= owed_sum(v, l, n),
    decreases n,
{
    if n > 1 {
        lemma_unclaimed_sum_owed(v, l, n - 1);
        lemma_term_bound(v, l, n - 1);
        let k = 10000 * active_scale(l);
        let a = v.unclaimed_sum(l, n - 1);
        let b = v.unclaimed_sum(l, n) - a;
        assert(k * (a + b) == k * a + k * b) by (nonlinear_arith);
    }
}

/// Under solvency the rewards sent plus all up-to-date unclaimed rewards
/// stay within the rewards received.
pub proof fn lemma_solvent_total(v: RewardsView, l: LedgerView)
    requires
        both_wf(v, l),
        solvent(v, l),
    ensures
        v.sent_rewards + v.unclaimed_sum(l, v.users.len() as int) <= v.total_cumulated_rewards,
{
    lemma_unclaimed_sum_owed(v, l, v.users.len() as int);
    let k = 10000 * active_scale(l);
    let a = v.sent_rewards;
    let b = v.unclaimed_sum(l, v.users.len() as int);
    let c = v.total_cumulated_rewards;
    assert(k * a + k * b <= k * c);
    assert(a + b <= c) by (nonlinear_arith) requires k * a + k * b <= k * c, k >= 1;
}

pub proof fn lemma_weight_sum(fee: int, l: LedgerView, n: int)
    requires
        1 <= n <= l.stakes.len(),
    ensures
        weight_sum(fee, l, n) == (if n >= 2 { fee * active_scale(l) } else { 0 })
            + (10000 - fee) * sum_of(l.stakes, FundType::Active, 1, n),
    decreases n,
{
    if n >= 2 {
        lemma_weight_sum(fee, l, n - 1);
        let a = sum_of(l.stakes, FundType::Active, 1, n - 1);
        let b = l.stakes[n - 1].active as int;
        assert(sum_of(l.stakes, FundType::Active, 1, n) == a + b);
        assert((10000 - fee) * (a + b) == (10000 - fee) * a + (10000 - fee) * b) by (nonlinear_arith);
    }
}

/// Rewards arriving keep solvency: all weights together are at most the scale.
pub proof fn lemma_solvent_receive(v: RewardsView, l: LedgerView, a: int)
    requires
        both_wf(v, l),
        solvent(v, l),
        v.users.len() >= 2,
        0 <= a,
        v.total_cumulated_rewards + a <= u64::MAX,
    ensures
        solvent(RewardsView { total_cumulated_rewards: v.total_cumulated_rewards + a, ..v }, l),
{
    let v2 = RewardsView { total_cumulated_rewards: v.total_cumulated_rewards + a, ..v };
    let n = v.users.len() as int;
    let fee = v.service_fee;
    lemma_owed_shift(v, l, a, n);
    lemma_weight_sum(fee, l, n);
    let sp = active_scale(l);
    let tot = l.stakes[0].active as int;
    assert(l.stakes[0].of(FundType::Active) == sum_of(l.stakes, FundType::Active, 1, l.stakes.len() as int));
    assert(tot == sum_of(l.stakes, FundType::Active, 1, n));
    assert(tot <= sp);
    let ws = weight_sum(fee, l, n);
    assert(ws <= 10000 * sp) by (nonlinear_arith)
        requires ws == fee * sp + (10000 - fee) * tot, tot <= sp, 0 <= fee <= 10000;
    assert(a * ws <= a * (10000 * sp)) by (nonlinear_arith) requires ws <= 10000 * sp, a >= 0;
    let k = 10000 * sp;
    let c = v.total_cumulated_rewards;
    assert(k * (c + a) == k * c + a * (10000 * sp)) by (nonlinear_arith) requires k == 10000 * sp;
}

pub proof fn lemma_owed_shift(v: RewardsView, l: LedgerView, a: int, n: int)
    requires
        n <= v.users.len(),
    ensures
        owed_sum(RewardsView { total_cumulated_rewards: v.total_cumulated_rewards + a, ..v }, l, n)
            == owed_sum(v, l, n) + a * weight_sum(v.service_fee, l, n),
    decreases n,
{
    let v2 = RewardsView { total_cumulated_rewards: v.total_cumulated_rewards + a, ..v };
    if n > 1 {
        lemma_owed_shift(v, l, a, n - 1);
        let w = weight(v.service_fee, l, n - 1);
        let d = v.total_cumulated_rewards - v.users[n - 1].reward_checkpoint;
        let ws = weight_sum(v.service_fee, l, n - 1);
        assert(w * (d + a) == w * d + a * w) by (nonlinear_arith);
        assert(a * (ws + w) == a * ws + a * w) by (nonlinear_arith);
        assert(owed_term(v2, l, n - 1) == owed_term(v, l, n - 1) + a * w);
    }
}

/// Terms agree where the scale, the counters and the user data agree, and
/// each user either keeps its active stake or is caught up.
pub proof fn lemma_owed_same(v1: RewardsView, l1: LedgerView, v2: RewardsView, l2: LedgerView, n: int)
    requires
        active_scale(l1) == active_scale(l2),
        v1.total_cumulated_rewards == v2.total_cumulated_rewards,
        v1.service_fee == v2.service_fee,
        forall|j: int| 1 <= j < n ==> #[trigger] v1.users[j] == v2.users[j],
        forall|j: int| 1 <= j < n ==> #[trigger] l1.stakes[j].active == l2.stakes[j].active
            || v1.users[j].reward_checkpoint == v1.total_cumulated_rewards,
    ensures
        owed_sum(v1, l1, n) == owed_sum(v2, l2, n),
    decreases n,
{
    if n > 1 {
        lemma_owed_same(v1, l1, v2, l2, n - 1);
        let j = n - 1;
        if l1.stakes[j].active != l2.stakes[j].active {
            let d = v1.total_cumulated_rewards - v1.users[j].reward_checkpoint;
            assert(d == 0);
            assert(weight(v1.service_fee, l1, j) * d == 0) by (nonlinear_arith) requires d == 0;
            assert(weight(v2.service_fee, l2, j) * d == 0) by (nonlinear_arith) requires d == 0;
        }
    }
}

/// A ledger change that leaves the aggregate active stake alone, and each
/// user's active stake alone unless that user is caught up, keeps solvency.
pub proof fn lemma_solvent_ledger_change(v: RewardsView, l1: LedgerView, l2: LedgerView)
    requires
        solvent(v, l1),
        l2.stakes.len() == l1.stakes.len(),
        l2.stakes[0].active == l1.stakes[0].active,
        forall|j: int| 1 <= j < l1.stakes.len() ==> #[trigger] l1.stakes[j].active == l2.stakes[j].active
            || v.users[j].reward_checkpoint == v.total_cumulated_rewards,
        v.users.len() == l1.stakes.len(),
    ensures
        solvent(v, l2),
{
    lemma_owed_same(v, l1, v, l2, v.users.len() as int);
}

pub proof fn lemma_caught_up_owed(v: RewardsView, l: LedgerView, n: int)
    requires
        n <= v.users.len(),
        caught_up(v),
    ensures
        owed_sum(v, l, n) == 10000 * active_scale(l) * stored_sum(v, n),
    decreases n,
{
    if n > 1 {
        lemma_caught_up_owed(v, l, n - 1);
        assert(v.users[n - 1].reward_checkpoint == v.total_cumulated_rewards);
        let w = weight(v.service_fee, l, n - 1);
        assert(w * 0 == 0) by (nonlinear_arith);
        let k = 10000 * active_scale(l);
        let a = stored_sum(v, n - 1);
        let b = v.users[n - 1].unclaimed_rewards as int;
        assert(k * (a + b) == k * a + k * b) by (nonlinear_arith);
    }
}

/// Once every user is caught up, solvency holds against any ledger.
pub proof fn lemma_solvent_caught_up(v: RewardsView, l1: LedgerView, l2: LedgerView)
    requires
        solvent(v, l1),
        caught_up(v),
    ensures
        solvent(v, l2),
{
    let n = v.users.len() as int;
    lemma_caught_up_owed(v, l1, n);
    lemma_caught_up_owed(v, l2, n);
    let k1 = 10000 * active_scale(l1);
    let k2 = 10000 * active_scale(l2);
    let a = v.sent_rewards;
    let b = stored_sum(v, n);
    let c = v.total_cumulated_rewards;
    assert(k1 * a + k1 * b <= k1 * c);
    assert(a + b <= c) by (nonlinear_arith) requires k1 * a + k1 * b <= k1 * c, k1 >= 1;
    assert(k2 * a + k2 * b <= k2 * c) by (nonlinear_arith) requires a + b <= c, k2 >= 1;
}

/// Bringing one user up to date keeps solvency.
pub proof fn lemma_solvent_compute_one(v: RewardsView, l: LedgerView, i: int)
    requires
        both_wf(v, l),
        solvent(v, l),
        1 <= i < v.users.len(),
        v.fits(l, i),
    ensures
        solvent(RewardsView { users: v.users.update(i, v.updated(l, i)), ..v }, l),
        (RewardsView { users: v.users.update(i, v.updated(l, i)), ..v }).users[i].reward_checkpoint
            == v.total_cumulated_rewards,
{
    let v2 = RewardsView { users: v.users.update(i, v.updated(l, i)), ..v };
    lemma_term_bound(v, l, i);
    lemma_unclaimed_nonneg(v, l, i);
    assert forall|j: int| 1 <= j < v.users.len() implies #[trigger] owed_term(v2, l, j) <= owed_term(v, l, j) by {
        if j == i {
            let w = weight(v.service_fee, l, i);
            assert(w * 0 == 0) by (nonlinear_arith);
        }
    }
    lemma_owed_le(v2, l, v, l, v.users.len() as int);
}

/// Bringing every user up to date keeps solvency and catches everyone up.
pub proof fn lemma_solvent_compute_all(v: RewardsView, l: LedgerView)
    requires
        both_wf(v, l),
        solvent(v, l),
    ensures
        solvent(v.all_updated(l), l),
        caught_up(v.all_updated(l)),
        v.all_updated(l).wf(),
{
    let v2 = v.all_updated(l);
    lemma_solvent_all_fit(v, l);
    assert forall|j: int| 1 <= j < v.users.len() implies #[trigger] owed_term(v2, l, j) <= owed_term(v, l, j) by {
        lemma_term_bound(v, l, j);
        lemma_unclaimed_nonneg(v, l, j);
        assert(v.fits(l, j));
        let w = weight(v.service_fee, l, j);
        assert(w * 0 == 0) by (nonlinear_arith);
    }
    lemma_owed_le(v2, l, v, l, v.users.len() as int);
    assert forall|j: int| 1 <= j < v2.users.len() implies (#[trigger] v2.users[j]).reward_checkpoint == v2.total_cumulated_rewards by {
        assert(v.fits(l, j));
    }
}

/// A claim (the claimant brought up to date, its unclaimed rewards moved to
/// the sent counter) keeps solvency.
pub proof fn lemma_solvent_claim(v: RewardsView, l: LedgerView, i: int)
    requires
        both_wf(v, l),
        solvent(v, l),
        1 <= i < v.users.len(),
    ensures
        solvent(RewardsView {
            sent_rewards: v.sent_rewards + v.updated(l, i).unclaimed_rewards,
            users: v.users.update(i, UserRewardData { unclaimed_rewards: 0, ..v.updated(l, i) }),
            ..v
        }, l),
{
    lemma_solvent_bounds(v, l, i);
    let d = v.updated(l, i);
    let v2 = RewardsView {
        sent_rewards: v.sent_rewards + d.unclaimed_rewards,
        users: v.users.update(i, UserRewardData { unclaimed_rewards: 0, ..d }),
        ..v
    };
    let n = v.users.len() as int;
    lemma_term_bound(v, l, i);
    lemma_unclaimed_nonneg(v, l, i);
    let k = 10000 * active_scale(l);
    let w = weight(v.service_fee, l, i);
    assert(w * 0 == 0) by (nonlinear_arith);
    assert(owed_term(v2, l, i) == 0) by (nonlinear_arith) requires owed_term(v2, l, i) == k * 0 + w * 0, w * 0 == 0;
    // the claimant's term shrinks by at least what is moved to the sent counter
    let v3 = RewardsView { users: v.users.update(i, UserRewardData { unclaimed_rewards: 0, ..d }), ..v };
    lemma_owed_split(v, l, i, n);
    lemma_owed_split(v3, l, i, n);
    lemma_owed_same_except(v, v3, l, i, n);
    assert(owed_term(v3, l, i) == owed_term(v2, l, i));
    lemma_owed_same(v3, l, v2, l, n);
    let u = d.unclaimed_rewards as int;
    assert(k * (v.sent_rewards + u) == k * v.sent_rewards + k * u) by (nonlinear_arith);
}

/// The owed sum split at user `i`.
pub proof fn lemma_owed_split(v: RewardsView, l: LedgerView, i: int, n: int)
    requires
        1 <= i < n,
    ensures
        owed_sum(v, l, n) == owed_sum(v, l, i) + owed_term(v, l, i) + (owed_sum(v, l, n) - owed_sum(v, l, i + 1)),
    decreases n,
{
}

/// Owed sums of views that differ only in user `i` differ only by its term.
pub proof fn lemma_owed_same_except(v1: RewardsView, v2: RewardsView, l: LedgerView, i: int, n: int)
    requires
        1 <= i < n,
        v1.total_cumulated_rewards == v2.total_cumulated_rewards,
        v1.service_fee == v2.service_fee,
        forall|j: int| 1 <= j < n && j != i ==> #[trigger] v1.users[j] == v2.users[j],
    ensures
        owed_sum(v1, l, n) - owed_term(v1, l, i) == owed_sum(v2, l, n) - owed_term(v2, l, i),
    decreases n,
{
    if n - 1 > i {
        lemma_owed_same_except(v1, v2, l, i, n - 1);
    } else {
        lemma_owed_same(v1, l, v2, l, i);
    }
}

/// A new user who has seen every reward and holds no stake keeps solvency.
pub proof fn lemma_solvent_push(v: RewardsView, l: LedgerView, address: Seq<u8>)
    requires
        solvent(v, l),
        v.users.len() == l.stakes.len(),
        l.stakes.len() >= 1,
        0 <= v.total_cumulated_rewards <= u64::MAX,
    ensures
        solvent(
            RewardsView {
                users: v.users.push(UserRewardData { reward_checkpoint: v.total_cumulated_rewards as u64, unclaimed_rewards: 0 }),
                ..v
            },
            LedgerView { stakes: l.stakes.push(crate::ledger::UserStake::zero_spec()), addresses: l.addresses.push(address) },
        ),
{
    let v2 = RewardsView {
        users: v.users.push(UserRewardData { reward_checkpoint: v.total_cumulated_rewards as u64, unclaimed_rewards: 0 }),
        ..v
    };
    let l2 = LedgerView { stakes: l.stakes.push(crate::ledger::UserStake::zero_spec()), addresses: l.addresses.push(address) };
    let n = v.users.len() as int;
    lemma_owed_same(v, l, v2, l2, n);
    let w = weight(v.service_fee, l2, n);
    assert(w * 0 == 0) by (nonlinear_arith);
    let k = 10000 * active_scale(l2);
    assert(k * 0 == 0) by (nonlinear_arith);
    assert(owed_term(v2, l2, n) == 0);
}

/// A claim moves exactly the claimant's up-to-date unclaimed rewards out of
/// the total of all users' up-to-date unclaimed rewards.
pub proof fn lemma_unclaimed_sum_claim(v: RewardsView, l: LedgerView, i: int, n: int)
    requires
        both_wf(v, l),
        solvent(v, l),
        1 <= i < v.users.len(),
        n <= v.users.len(),
    ensures
        (RewardsView {
            sent_rewards: v.sent_rewards + v.updated(l, i).unclaimed_rewards,
            users: v.users.update(i, UserRewardData { unclaimed_rewards: 0, ..v.updated(l, i) }),
            ..v
        }).unclaimed_sum(l, n) == v.unclaimed_sum(l, n) - (if i < n { v.updated(l, i).unclaimed_rewards as int } else { 0 }),
    decreases n,
{
    lemma_solvent_bounds(v, l, i);
    lemma_unclaimed_nonneg(v, l, i);
    if n > 1 {
        lemma_unclaimed_sum_claim(v, l, i, n - 1);
    }
}

/// Under solvency, bringing a user's rewards up to date a second time, with
/// no reward arriving and no stake changing in between, changes nothing.
pub proof fn lemma_compute_twice_solvent(v: RewardsView, l: LedgerView, id: int)
    requires
        both_wf(v, l),
        solvent(v, l),
        1 <= id < v.users.len(),
    ensures
        (RewardsView { users: v.users.update(id, v.updated(l, id)), ..v }).updated(l, id) == v.updated(l, id),
{
    lemma_solvent_bounds(v, l, id);
    crate::rewards::lemma_compute_twice(v, l, id);
}
} // verus!
