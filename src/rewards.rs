use vstd::prelude::*;
use crate::types::{DelegationError, FundType, OWNER_USER_ID, PERCENTAGE_DENOMINATOR, USER_STAKE_TOTALS_ID};
use crate::ledger::{FundLedger, LedgerView};

verus! {
/// Reward bookkeeping of one user.
#[derive(Clone, Copy, Debug, PartialEq, Eq, Structural)]
pub struct UserRewardData {
    /// Total cumulated rewards when this user's rewards were last computed.
    pub reward_checkpoint: u64,
    /// Rewards computed for this user but not yet sent.
    pub unclaimed_rewards: u64,
}

/// Part of `delta` new rewards kept as service fee at `fee` basis points.
pub open spec fn service_part(delta: int, fee: int) -> int {
    delta * fee / PERCENTAGE_DENOMINATOR as int
}

/// Part of `delta` new rewards shared among delegators at `fee` basis points.
pub open spec fn delegator_part(delta: int, fee: int) -> int {
    delta * (PERCENTAGE_DENOMINATOR - fee) / PERCENTAGE_DENOMINATOR as int
}

/// Unclaimed rewards of a user after its share of the rewards that arrived
/// since its checkpoint is added: the service part for the owner, and the
/// delegator part pro rata to active stake `s` of total active stake `total`.
pub open spec fn updated_unclaimed(cum: int, fee: int, d: UserRewardData, is_owner: bool, s: int, total: int) -> int {
    let delta = cum - d.reward_checkpoint;
    if delta == 0 {
        d.unclaimed_rewards as int
    } else {
        d.unclaimed_rewards
            + (if is_owner { service_part(delta, fee) } else { 0 })
            + (if s > 0 { delegator_part(delta, fee) * s / total } else { 0 })
    }
}

/// The user's reward data after its rewards were brought up to date.
pub open spec fn updated_data(cum: int, fee: int, d: UserRewardData, is_owner: bool, s: int, total: int) -> UserRewardData {
    if cum - d.reward_checkpoint == 0 {
        d
    } else {
        UserRewardData {
            reward_checkpoint: cum as u64,
            unclaimed_rewards: updated_unclaimed(cum, fee, d, is_owner, s, total) as u64,
        }
    }
}

/// Splits `tot_rewards` into the service part and the delegator part, each
/// rounded down; the remainder of the rounding goes to neither.
pub fn split_service_reward(service_fee: u64, tot_rewards: u64) -> (r: (u64, u64))
    requires
        service_fee <= PERCENTAGE_DENOMINATOR,
    ensures
        r.0 == service_part(tot_rewards as int, service_fee as int),
        r.1 == delegator_part(tot_rewards as int, service_fee as int),
        r.0 + r.1 <= tot_rewards,
{
    let t = tot_rewards as u128;
    proof {
        assert(t * (service_fee as u128) <= (u64::MAX as int) * 10000) by (nonlinear_arith)
            requires t <= u64::MAX, service_fee <= 10000;
        assert(t * ((10000 - service_fee) as u128) <= (u64::MAX as int) * 10000) by (nonlinear_arith)
            requires t <= u64::MAX, service_fee <= 10000;
        lemma_split_bounds(tot_rewards as int, service_fee as int);
    }
    let service = t * (service_fee as u128) / (PERCENTAGE_DENOMINATOR as u128);
    let delegators = t * ((PERCENTAGE_DENOMINATOR - service_fee) as u128) / (PERCENTAGE_DENOMINATOR as u128);
    (service as u64, delegators as u64)
}

pub proof fn lemma_split_bounds(delta: int, fee: int)
    requires
        0 <= delta,
        0 <= fee <= 10000,
    ensures
        0 <= service_part(delta, fee),
        0 <= delegator_part(delta, fee),
        service_part(delta, fee) + delegator_part(delta, fee) <= delta,
{
    let a = delta * fee;
    let b = delta * (10000 - fee);
    assert(a + b == delta * 10000) by (nonlinear_arith)
        requires a == delta * fee, b == delta * (10000 - fee);
    assert(a >= 0 && b >= 0) by (nonlinear_arith) requires 0 <= delta, 0 <= fee <= 10000, a == delta * fee, b == delta * (10000 - fee);
    assert(a / 10000 + b / 10000 <= (a + b) / 10000) by (nonlinear_arith) requires a >= 0, b >= 0;
    assert((delta * 10000) / 10000 == delta) by (nonlinear_arith);
}

/// A share of `part` pro rata to `s` of `total` is at most `part`.
pub proof fn lemma_share_bound(part: int, s: int, total: int)
    requires
        0 <= part,
        0 < s <= total,
    ensures
        0 <= part * s / total <= part,
{
    assert(part * s <= part * total) by (nonlinear_arith) requires 0 <= part, 0 < s <= total;
    assert(part * s / total <= part * total / total) by (nonlinear_arith) requires part * s <= part * total, 0 < total;
    assert(part * total / total == part) by (nonlinear_arith) requires 0 < total;
    assert(part * s >= 0) by (nonlinear_arith) requires 0 <= part, 0 < s;
}

/// Bringing user `id`'s rewards up to date a second time, with no reward
/// arriving and no stake changing in between, computes what the first time
/// stored.
pub proof fn lemma_compute_twice(v: RewardsView, l: LedgerView, id: int)
    requires
        v.wf(),
        l.wf(),
        v.users.len() == l.stakes.len(),
        1 <= id < v.users.len(),
        v.fits(l, id),
    ensures
        (RewardsView { users: v.users.update(id, v.updated(l, id)), ..v }).fits(l, id),
        (RewardsView { users: v.users.update(id, v.updated(l, id)), ..v }).updated(l, id) == v.updated(l, id),
{
    lemma_unclaimed_nonneg(v, l, id);
}

/// Bringing a user's rewards up to date when its checkpoint already is the
/// cumulated rewards changes nothing.
pub proof fn lemma_recompute_at_checkpoint(v: RewardsView, l: LedgerView, id: int)
    requires
        0 <= id < v.users.len(),
        v.users[id].reward_checkpoint == v.total_cumulated_rewards,
    ensures
        v.updated(l, id) == v.users[id],
        updated_unclaimed(v.total_cumulated_rewards, v.service_fee, v.users[id], id == OWNER_USER_ID,
            l.stakes[id].of(FundType::Active) as int, l.stakes[0].of(FundType::Active) as int)
            == v.users[id].unclaimed_rewards,
{
}

/// The reward distributor as a mathematical value.
pub struct RewardsView {
    pub service_fee: int,
    pub total_cumulated_rewards: int,
    pub sent_rewards: int,
    pub users: Seq<UserRewardData>,
}

impl RewardsView {
    /// The fee is a fraction, no more was sent than ever received, and no
    /// checkpoint lies ahead of the cumulated rewards.
    pub open spec fn wf(self) -> bool {
        &&& 0 <= self.service_fee <= PERCENTAGE_DENOMINATOR
        &&& 0 <= self.sent_rewards <= self.total_cumulated_rewards <= u64::MAX
        &&& forall|i: int| 0 <= i < self.users.len() ==> (#[trigger] self.users[i]).reward_checkpoint <= self.total_cumulated_rewards
    }

    /// User `id`'s reward data brought up to date against ledger `l`.
    pub open spec fn updated(self, l: LedgerView, id: int) -> UserRewardData {
        updated_data(self.total_cumulated_rewards, self.service_fee, self.users[id], id == OWNER_USER_ID,
            l.stakes[id].of(FundType::Active) as int, l.stakes[0].of(FundType::Active) as int)
    }

    /// Every user's reward data brought up to date against ledger `l`.
    pub open spec fn all_updated(self, l: LedgerView) -> RewardsView {
        RewardsView {
            users: Seq::new(self.users.len(), |i: int| if i == 0 { self.users[0] } else { self.updated(l, i) }),
            ..self
        }
    }

    /// Every user's updated unclaimed rewards fit in 64 bits.
    pub open spec fn all_fit(self, l: LedgerView) -> bool {
        forall|i: int| 1 <= i < self.users.len() ==> #[trigger] self.fits(l, i)
    }

    /// User `id`'s updated unclaimed rewards fit in 64 bits.
    pub open spec fn fits(self, l: LedgerView, id: int) -> bool {
        updated_unclaimed(self.total_cumulated_rewards, self.service_fee, self.users[id], id == OWNER_USER_ID,
            l.stakes[id].of(FundType::Active) as int, l.stakes[0].of(FundType::Active) as int) <= u64::MAX
    }

    /// Sum of the updated unclaimed rewards of users `1..n`.
    pub open spec fn unclaimed_sum(self, l: LedgerView, n: int) -> int
        decreases n,
    {
        if n <= 1 {
            0
        } else {
            self.unclaimed_sum(l, n - 1) + updated_unclaimed(self.total_cumulated_rewards, self.service_fee,
                self.users[n - 1], n - 1 == OWNER_USER_ID, l.stakes[n - 1].of(FundType::Active) as int,
                l.stakes[0].of(FundType::Active) as int)
        }
    }
}

/// Global reward counters and each user's reward checkpoint.
pub struct RewardDistributor {
    service_fee: u64,
    total_cumulated_rewards: u64,
    sent_rewards: u64,
    users: Vec<UserRewardData>,
}

impl View for RewardDistributor {
    type V = RewardsView;

    closed spec fn view(&self) -> RewardsView {
        RewardsView {
            service_fee: self.service_fee as int,
            total_cumulated_rewards: self.total_cumulated_rewards as int,
            sent_rewards: self.sent_rewards as int,
            users: self.users@,
        }
    }
}

impl RewardDistributor {
    pub open spec fn wf(&self) -> bool {
        self@.wf()
    }

    /// A distributor for `num_entries` user slots (the totals pseudo-user
    /// included), with nothing received yet.
    pub fn new(service_fee: u64, num_entries: usize) -> (r: RewardDistributor)
        requires
            service_fee <= PERCENTAGE_DENOMINATOR,
        ensures
            r.wf(),
            r@.service_fee == service_fee,
            r@.total_cumulated_rewards == 0,
            r@.sent_rewards == 0,
            r@.users.len() == num_entries,
            forall|i: int| 0 <= i < num_entries ==> #[trigger] r@.users[i]
                == (UserRewardData { reward_checkpoint: 0, unclaimed_rewards: 0 }),
    {
        let mut users: Vec<UserRewardData> = Vec::new();
        let mut i: usize = 0;
        while i < num_entries
            invariant
                i <= num_entries,
                users@.len() == i,
                forall|j: int| 0 <= j < i ==> #[trigger] users@[j]
                    == (UserRewardData { reward_checkpoint: 0, unclaimed_rewards: 0 }),
            decreases num_entries - i,
        {
            users.push(UserRewardData { reward_checkpoint: 0, unclaimed_rewards: 0 });
            i = i + 1;
        }
        RewardDistributor { service_fee, total_cumulated_rewards: 0, sent_rewards: 0, users }
    }

    pub fn get_service_fee(&self) -> (r: u64)
        ensures
            r == self@.service_fee,
    {
        self.service_fee
    }

    /// Number of user slots, the totals pseudo-user included.
    pub fn users_len(&self) -> (r: usize)
        ensures
            r == self@.users.len(),
    {
        self.users.len()
    }

    /// Replaces the stored reward data of user `user_id`.
    fn store_user_reward_data(&mut self, user_id: usize, data: UserRewardData)
        requires
            user_id < old(self)@.users.len(),
        ensures
            final(self)@ == (RewardsView { users: old(self)@.users.update(user_id as int, data), ..old(self)@ }),
    {
        self.users.set(user_id, data);
    }

    /// Adds a slot for a new user, who has seen every reward received so far
    /// and has nothing unclaimed.
    pub fn add_user(&mut self)
        requires
            old(self).wf(),
        ensures
            final(self).wf(),
            final(self)@ == (RewardsView {
                users: old(self)@.users.push(UserRewardData {
                    reward_checkpoint: old(self)@.total_cumulated_rewards as u64,
                    unclaimed_rewards: 0,
                }),
                ..old(self)@
            }),
    {
        self.users.push(UserRewardData { reward_checkpoint: self.total_cumulated_rewards, unclaimed_rewards: 0 });
    }
}

/// The reward distributor's operations: receiving rewards, bringing each
/// user's share up to date against the ledger, and paying it out.
pub trait RewardsModule {
    /// The distributor as a mathematical value.
    spec fn reward_state(&self) -> RewardsView;

    /// All rewards ever received.
    fn get_total_cumulated_rewards(&self) -> (r: u64)
        ensures
            r == self.reward_state().total_cumulated_rewards,
    ;

    /// All rewards ever sent to delegators.
    fn get_sent_rewards(&self) -> (r: u64)
        ensures
            r == self.reward_state().sent_rewards,
    ;

    /// Stored reward data of user `user_id`.
    fn load_user_reward_data(&self, user_id: usize) -> (r: UserRewardData)
        requires
            user_id < self.reward_state().users.len(),
        ensures
            r == self.reward_state().users[user_id as int],
    ;

    /// Records `amount` of newly arrived rewards; fails with `Overflow`,
    /// changing nothing, if the cumulated total would leave 64 bits.
    fn receive_rewards(&mut self, amount: u64) -> (r: Result<(), DelegationError>)
        requires
            old(self).reward_state().wf(),
        ensures
            final(self).reward_state().wf(),
            r is Ok <==> old(self).reward_state().total_cumulated_rewards + amount <= u64::MAX,
            r is Ok ==> final(self).reward_state() == (RewardsView {
                total_cumulated_rewards: old(self).reward_state().total_cumulated_rewards + amount,
                ..old(self).reward_state()
            }),
            r is Err ==> r == Err::<(), DelegationError>(DelegationError::Overflow) && final(self).reward_state() == old(self).reward_state(),
    ;

    /// User `user_id`'s reward data brought up to date, without storing it.
    /// Fails with `Overflow` if the unclaimed rewards would leave 64 bits.
    fn load_updated_user_rewards(&self, ledger: &FundLedger, user_id: usize) -> (r: Result<UserRewardData, DelegationError>)
        requires
            self.reward_state().wf(),
            ledger.wf(),
            self.reward_state().users.len() == ledger@.stakes.len(),
            1 <= user_id < self.reward_state().users.len(),
        ensures
            r is Ok <==> self.reward_state().fits(ledger@, user_id as int),
            r matches Ok(d) ==> d == self.reward_state().updated(ledger@, user_id as int),
            r is Err ==> r == Err::<UserRewardData, DelegationError>(DelegationError::Overflow),
    ;

    /// Brings user `user_id`'s rewards up to date and stores them. Fails with
    /// `Overflow`, changing nothing, if the unclaimed rewards would leave 64 bits.
    fn compute_one_user_reward(&mut self, ledger: &FundLedger, user_id: usize) -> (r: Result<(), DelegationError>)
        requires
            old(self).reward_state().wf(),
            ledger.wf(),
            old(self).reward_state().users.len() == ledger@.stakes.len(),
            1 <= user_id < old(self).reward_state().users.len(),
        ensures
            final(self).reward_state().wf(),
            r is Ok <==> old(self).reward_state().fits(ledger@, user_id as int),
            r is Ok ==> final(self).reward_state() == (RewardsView {
                users: old(self).reward_state().users.update(user_id as int, old(self).reward_state().updated(ledger@, user_id as int)),
                ..old(self).reward_state()
            }),
            r is Err ==> r == Err::<(), DelegationError>(DelegationError::Overflow) && final(self).reward_state() == old(self).reward_state(),
    ;

    /// Brings every user's rewards up to date. Fails with `Overflow`, before
    /// storing anything, if some user's unclaimed rewards would leave 64 bits.
    fn compute_all_rewards(&mut self, ledger: &FundLedger) -> (r: Result<(), DelegationError>)
        requires
            old(self).reward_state().wf(),
            ledger.wf(),
            old(self).reward_state().users.len() == ledger@.stakes.len(),
        ensures
            final(self).reward_state().wf(),
            r is Ok <==> old(self).reward_state().all_fit(ledger@),
            r is Ok ==> final(self).reward_state() == old(self).reward_state().all_updated(ledger@),
            r is Err ==> r == Err::<(), DelegationError>(DelegationError::Overflow) && final(self).reward_state() == old(self).reward_state(),
    ;

    /// Sends user `user_id` its up-to-date unclaimed rewards: yields the
    /// amount to transfer, adds it to the sent rewards and zeroes the user's
    /// unclaimed rewards. Fails, changing nothing, with `Overflow` if the
    /// update would overflow, or `RewardsExhausted` if more would have been
    /// sent than was ever received.
    fn claim_user_rewards(&mut self, ledger: &FundLedger, user_id: usize) -> (r: Result<u64, DelegationError>)
        requires
            old(self).reward_state().wf(),
            ledger.wf(),
            old(self).reward_state().users.len() == ledger@.stakes.len(),
            1 <= user_id < old(self).reward_state().users.len(),
        ensures
            final(self).reward_state().wf(),
            !old(self).reward_state().fits(ledger@, user_id as int) ==> r == Err::<u64, DelegationError>(DelegationError::Overflow),
            old(self).reward_state().fits(ledger@, user_id as int) ==> {
                let d = old(self).reward_state().updated(ledger@, user_id as int);
                &&& old(self).reward_state().sent_rewards + d.unclaimed_rewards > old(self).reward_state().total_cumulated_rewards
                    ==> r == Err::<u64, DelegationError>(DelegationError::RewardsExhausted)
                &&& old(self).reward_state().sent_rewards + d.unclaimed_rewards <= old(self).reward_state().total_cumulated_rewards ==> {
                    &&& r == Ok::<u64, DelegationError>(d.unclaimed_rewards)
                    &&& final(self).reward_state() == (RewardsView {
                        sent_rewards: old(self).reward_state().sent_rewards + d.unclaimed_rewards,
                        users: old(self).reward_state().users.update(user_id as int,
                            UserRewardData { unclaimed_rewards: 0, ..d }),
                        ..old(self).reward_state()
                    })
                }
            },
            r is Err ==> final(self).reward_state() == old(self).reward_state(),
    ;

    /// Sum of every user's up-to-date unclaimed rewards; fails with
    /// `Overflow` if it leaves 64 bits.
    fn get_total_unclaimed_rewards(&self, ledger: &FundLedger) -> (r: Result<u64, DelegationError>)
        requires
            self.reward_state().wf(),
            ledger.wf(),
            self.reward_state().users.len() == ledger@.stakes.len(),
        ensures
            r is Ok <==> self.reward_state().unclaimed_sum(ledger@, self.reward_state().users.len() as int) <= u64::MAX,
            r matches Ok(v) ==> v == self.reward_state().unclaimed_sum(ledger@, self.reward_state().users.len() as int),
            r is Err ==> r == Err::<u64, DelegationError>(DelegationError::Overflow),
    ;
}

impl RewardsModule for RewardDistributor {
    open spec fn reward_state(&self) -> RewardsView {
        self@
    }

    fn get_total_cumulated_rewards(&self) -> (r: u64)
    {
        self.total_cumulated_rewards
    }

    fn get_sent_rewards(&self) -> (r: u64)
    {
        self.sent_rewards
    }

    fn load_user_reward_data(&self, user_id: usize) -> (r: UserRewardData)
    {
        self.users[user_id]
    }

    fn receive_rewards(&mut self, amount: u64) -> (r: Result<(), DelegationError>)
    {
        if amount > u64::MAX - self.total_cumulated_rewards {
            return Err(DelegationError::Overflow);
        }
        self.total_cumulated_rewards = self.total_cumulated_rewards + amount;
        Ok(())
    }

    fn load_updated_user_rewards(&self, ledger: &FundLedger, user_id: usize) -> (r: Result<UserRewardData, DelegationError>)
    {
        let mut data = self.users[user_id];
        let delta = self.total_cumulated_rewards - data.reward_checkpoint;
        if delta == 0 {
            return Ok(data);
        }
        let (service, delegators) = split_service_reward(self.service_fee, delta);
        let mut extra: u128 = 0;
        if user_id == OWNER_USER_ID {
            extra = service as u128;
        }
        let total_active = ledger.get_user_stake_of_type(USER_STAKE_TOTALS_ID, FundType::Active);
        let active = ledger.get_user_stake_of_type(user_id, FundType::Active);
        if active > 0 {
            proof {
                crate::ledger::lemma_user_bounded(ledger@, user_id as int, FundType::Active);
                lemma_share_bound(delegators as int, active as int, total_active as int);
                assert((delegators as int) * (active as int) <= (u64::MAX as int) * (u64::MAX as int)) by (nonlinear_arith)
                    requires delegators <= u64::MAX, active <= u64::MAX;
            }
            let share = (delegators as u128) * (active as u128) / (total_active as u128);
            extra = extra + share;
        }
        let new_unclaimed = data.unclaimed_rewards as u128 + extra;
        if new_unclaimed > u64::MAX as u128 {
            return Err(DelegationError::Overflow);
        }
        data.unclaimed_rewards = new_unclaimed as u64;
        data.reward_checkpoint = self.total_cumulated_rewards;
        Ok(data)
    }

    fn compute_one_user_reward(&mut self, ledger: &FundLedger, user_id: usize) -> (r: Result<(), DelegationError>)
    {
        let data = self.load_updated_user_rewards(ledger, user_id)?;
        self.store_user_reward_data(user_id, data);
        Ok(())
    }

    fn compute_all_rewards(&mut self, ledger: &FundLedger) -> (r: Result<(), DelegationError>)
    {
        let n = self.users.len();
        let mut i: usize = 1;
        while i < n
            invariant
                self.wf(),
                ledger.wf(),
                n == self@.users.len(),
                self@.users.len() == ledger@.stakes.len(),
                1 <= i <= n,
                forall|j: int| 1 <= j < i ==> #[trigger] self@.fits(ledger@, j),
            decreases n - i,
        {
            if self.load_updated_user_rewards(ledger, i).is_err() {
                return Err(DelegationError::Overflow);
            }
            i = i + 1;
        }
        let ghost v0 = self@;
        i = 1;
        while i < n
            invariant
                self.wf(),
                ledger.wf(),
                n == self@.users.len(),
                n == v0.users.len(),
                self@.users.len() == ledger@.stakes.len(),
                v0.wf(),
                1 <= i <= n,
                forall|j: int| 1 <= j < n ==> #[trigger] v0.fits(ledger@, j),
                self@.service_fee == v0.service_fee,
                self@.total_cumulated_rewards == v0.total_cumulated_rewards,
                self@.sent_rewards == v0.sent_rewards,
                forall|j: int| 1 <= j < i ==> #[trigger] self@.users[j] == v0.updated(ledger@, j),
                forall|j: int| (j == 0 || i <= j < n) ==> #[trigger] self@.users[j] == v0.users[j],
            decreases n - i,
        {
            proof {
                assert(self@.fits(ledger@, i as int) == v0.fits(ledger@, i as int));
            }
            let r = self.compute_one_user_reward(ledger, i);
            assert(r is Ok);
            i = i + 1;
        }
        proof {
            assert(self@.users =~= v0.all_updated(ledger@).users);
        }
        Ok(())
    }

    fn claim_user_rewards(&mut self, ledger: &FundLedger, user_id: usize) -> (r: Result<u64, DelegationError>)
    {
        let mut data = self.load_updated_user_rewards(ledger, user_id)?;
        let amount = data.unclaimed_rewards;
        if amount > self.total_cumulated_rewards - self.sent_rewards {
            return Err(DelegationError::RewardsExhausted);
        }
        self.sent_rewards = self.sent_rewards + amount;
        data.unclaimed_rewards = 0;
        self.users.set(user_id, data);
        Ok(amount)
    }

    fn get_total_unclaimed_rewards(&self, ledger: &FundLedger) -> (r: Result<u64, DelegationError>)
    {
        let n = self.users.len();
        let mut sum: u64 = 0;
        let mut i: usize = 1;
        while i < n
            invariant
                self.wf(),
                ledger.wf(),
                n == self@.users.len(),
                self@.users.len() == ledger@.stakes.len(),
                1 <= i <= n,
                sum == self@.unclaimed_sum(ledger@, i as int),
            decreases n - i,
        {
            match self.load_updated_user_rewards(ledger, i) {
                Ok(d) => {
                    proof {
                        lemma_unclaimed_nonneg(self@, ledger@, i as int);
                        assert(d.unclaimed_rewards == updated_unclaimed(self@.total_cumulated_rewards, self@.service_fee,
                            self@.users[i as int], i == OWNER_USER_ID, ledger@.stakes[i as int].of(FundType::Active) as int,
                            ledger@.stakes[0].of(FundType::Active) as int));
                        assert(self@.unclaimed_sum(ledger@, i + 1) == self@.unclaimed_sum(ledger@, i as int) + d.unclaimed_rewards);
                    }
                    if d.unclaimed_rewards > u64::MAX - sum {
                        proof { lemma_unclaimed_sum_grows(self@, ledger@, i as int + 1, n as int); }
                        return Err(DelegationError::Overflow);
                    }
                    sum = sum + d.unclaimed_rewards;
                },
                Err(_) => {
                    proof {
                        lemma_unclaimed_sum_nonneg(self@, ledger@, i as int);
                        lemma_unclaimed_sum_grows(self@, ledger@, i as int + 1, n as int);
                    }
                    return Err(DelegationError::Overflow);
                },
            }
            i = i + 1;
        }
        Ok(sum)
    }
}

pub proof fn lemma_unclaimed_nonneg(v: RewardsView, l: LedgerView, i: int)
    requires
        v.wf(),
        l.wf(),
        v.users.len() == l.stakes.len(),
        1 <= i < v.users.len(),
    ensures
        updated_unclaimed(v.total_cumulated_rewards, v.service_fee, v.users[i], i == OWNER_USER_ID,
            l.stakes[i].of(FundType::Active) as int, l.stakes[0].of(FundType::Active) as int) >= v.users[i].unclaimed_rewards,
{
    let delta = v.total_cumulated_rewards - v.users[i].reward_checkpoint;
    lemma_split_bounds(delta, v.service_fee);
    let s = l.stakes[i].of(FundType::Active) as int;
    if s > 0 {
        crate::ledger::lemma_user_bounded(l, i, FundType::Active);
        lemma_share_bound(delegator_part(delta, v.service_fee), s, l.stakes[0].of(FundType::Active) as int);
    }
}

pub proof fn lemma_unclaimed_sum_nonneg(v: RewardsView, l: LedgerView, n: int)
    requires
        v.wf(),
        l.wf(),
        v.users.len() == l.stakes.len(),
        n <= v.users.len(),
    ensures
        v.unclaimed_sum(l, n) >= 0,
    decreases n,
{
    if n > 1 {
        lemma_unclaimed_sum_nonneg(v, l, n - 1);
        lemma_unclaimed_nonneg(v, l, n - 1);
    }
}

pub proof fn lemma_unclaimed_sum_grows(v: RewardsView, l: LedgerView, m: int, n: int)
    requires
        v.wf(),
        l.wf(),
        v.users.len() == l.stakes.len(),
        1 <= m <= n <= v.users.len(),
    ensures
        v.unclaimed_sum(l, m) <= v.unclaimed_sum(l, n),
    decreases n - m,
{
    if n > m {
        lemma_unclaimed_sum_grows(v, l, m, n - 1);
        lemma_unclaimed_nonneg(v, l, n - 1);
    }
}
} // verus!
