use vstd::prelude::*;
use crate::types::{DelegationError, FundType, NodeState, SweepOrder, OWNER_USER_ID, PERCENTAGE_DENOMINATOR, USER_STAKE_TOTALS_ID};
use crate::ledger::{FundLedger, LedgerView, UserStake, credited, debited, transformed};
use crate::nodes::{NodeConfigModule, NodeRegistry, NodesView, all_in_state, distinct, ids_of, key_views, pair_views, well_sized};
use crate::rewards::{RewardDistributor, RewardsModule, RewardsView, UserRewardData};
use crate::bytes::bytes_eq;
use crate::sale::{SaleOffer, SaleOffers};
use crate::solvency::{caught_up, solvent};

verus! {
/// Neither counter of the reward distributor went down, and no more was
/// sent than was ever received.
pub open spec fn rewards_monotone(before: RewardsView, after: RewardsView) -> bool {
    &&& before.total_cumulated_rewards <= after.total_cumulated_rewards
    &&& before.sent_rewards <= after.sent_rewards
    &&& after.sent_rewards <= after.total_cumulated_rewards
}

/// The staking-delegation contract: node registry, fund ledger and reward
/// distributor, with the two-phase lifecycle operations that move them together.
pub struct Delegation {
    owner: Vec<u8>,
    stake_per_node: u64,
    time_before_force_unstake: u64,
    nodes: NodeRegistry,
    ledger: FundLedger,
    rewards: RewardDistributor,
    sale: SaleOffers,
}

impl Delegation {
    proof fn lemma_parts(&self)
        ensures
            self.nodes.wf() == self.nodes_view().wf(),
            self.ledger.wf() == self.ledger_view().wf(),
            self.rewards.wf() == self.rewards_view().wf(),
            self.nodes@ == self.nodes_view(),
            self.ledger@ == self.ledger_view(),
            self.rewards@ == self.rewards_view(),
            self.sale@ == self.offers_view(),
            self.owner@ == self.owner_view(),
            self.stake_per_node == self.stake_per_node_view(),
            self.time_before_force_unstake == self.grace_period_view(),
    {
    }

    /// A contract owned by `owner`, who becomes user 1; nothing is staked,
    /// no node is registered and no reward has arrived.
    pub fn new(owner: &Vec<u8>, stake_per_node: u64, service_fee: u64, time_before_force_unstake: u64) -> (r: Delegation)
        requires
            service_fee <= PERCENTAGE_DENOMINATOR,
        ensures
            r.wf(),
            r.owner_view() == owner@,
            r.stake_per_node_view() == stake_per_node,
            r.grace_period_view() == time_before_force_unstake,
            r.nodes_view().num_nodes() == 0,
            r.ledger_view().num_users() == 1,
            r.ledger_view().user_id(owner@) == OWNER_USER_ID,
            forall|i: int, t: FundType| #[trigger] r.ledger_view().stake_of(i, t) == 0,
            r.rewards_view().service_fee == service_fee,
            r.rewards_view().total_cumulated_rewards == 0,
            r.rewards_view().sent_rewards == 0,
    {
        let mut ledger = FundLedger::new();
        let id = ledger.new_user(owner);
        let r = Delegation {
            owner: owner.clone(),
            stake_per_node,
            time_before_force_unstake,
            nodes: NodeRegistry::new(),
            ledger,
            rewards: RewardDistributor::new(service_fee, 2),
            sale: SaleOffers::new(2),
        };
        proof {
            assert forall|i: int, t: FundType| #[trigger] r.ledger_view().stake_of(i, t) == 0 by {
                if 0 <= i < r.ledger_view().stakes.len() {
                    if i == 1 {
                        assert(r.ledger_view().stakes[1] == UserStake::zero_spec());
                    } else {
                        assert(r.ledger_view().stakes[0].of(t) == crate::ledger::sum_of(r.ledger_view().stakes, t, 1, 2));
                        assert(crate::ledger::sum_of(r.ledger_view().stakes, t, 1, 2)
                            == crate::ledger::sum_of(r.ledger_view().stakes, t, 1, 1) + r.ledger_view().stakes[1].of(t));
                    }
                }
            }
            let rv = r.rewards_view();
            let lv = r.ledger_view();
            assert(crate::solvency::caught_up(rv)) by {
                assert forall|j: int| 1 <= j < rv.users.len() implies (#[trigger] rv.users[j]).reward_checkpoint == rv.total_cumulated_rewards by {
                    assert(rv.users[j] == (UserRewardData { reward_checkpoint: 0, unclaimed_rewards: 0 }));
                }
            }
            crate::solvency::lemma_caught_up_owed(rv, lv, 2);
            assert(rv.users[1] == (UserRewardData { reward_checkpoint: 0, unclaimed_rewards: 0 }));
            assert(crate::solvency::stored_sum(rv, 1) == 0);
            assert(crate::solvency::stored_sum(rv, 2) == 0);
            let k = 10000 * crate::solvency::active_scale(lv);
            assert(k * 0 == 0) by (nonlinear_arith);
        }
        r
    }

    /// The node registry.
    pub fn nodes(&self) -> (r: &NodeRegistry)
        ensures
            r@ == self.nodes_view(),
    {
        &self.nodes
    }

    /// The fund ledger.
    pub fn ledger(&self) -> (r: &FundLedger)
        ensures
            r@ == self.ledger_view(),
    {
        &self.ledger
    }

    /// The reward distributor.
    pub fn rewards(&self) -> (r: &RewardDistributor)
        ensures
            r@ == self.rewards_view(),
    {
        &self.rewards
    }

    pub fn get_stake_per_node(&self) -> (r: u64)
        ensures
            r == self.stake_per_node_view(),
    {
        self.stake_per_node
    }

    /// Whether `caller` is the contract owner.
    pub fn is_owner(&self, caller: &Vec<u8>) -> (r: bool)
        ensures
            r == (caller@ == self.owner_view()),
    {
        bytes_eq(caller, &self.owner)
    }

    /// Registers `address` as a user if it is not one yet, keeping the user
    /// slots of the ledger, the reward distributor and the offers in line.
    fn get_or_create_user(&mut self, address: &Vec<u8>) -> (r: Result<usize, DelegationError>)
        requires
            old(self).wf(),
        ensures
            final(self).wf(),
            final(self).owner_view() == old(self).owner_view(),
            final(self).stake_per_node_view() == old(self).stake_per_node_view(),
            final(self).grace_period_view() == old(self).grace_period_view(),
            final(self).nodes_view() == old(self).nodes_view(),
            old(self).ledger_view().user_id(address@) != 0 ==> r == Ok::<usize, DelegationError>(old(self).ledger_view().user_id(address@) as usize)
                && final(self).ledger_view() == old(self).ledger_view()
                && final(self).rewards_view() == old(self).rewards_view()
                && final(self).offers_view() == old(self).offers_view(),
            old(self).ledger_view().user_id(address@) == 0 && old(self).ledger_view().stakes.len() >= usize::MAX - 1
                ==> r == Err::<usize, DelegationError>(DelegationError::Overflow) && *final(self) == *old(self),
            old(self).ledger_view().user_id(address@) == 0 && old(self).ledger_view().stakes.len() < usize::MAX - 1
                ==> r == Ok::<usize, DelegationError>((old(self).ledger_view().num_users() + 1) as usize)
                && final(self).ledger_view() == (LedgerView {
                    stakes: old(self).ledger_view().stakes.push(UserStake::zero_spec()),
                    addresses: old(self).ledger_view().addresses.push(address@),
                })
                && final(self).rewards_view() == (RewardsView {
                    users: old(self).rewards_view().users.push(UserRewardData {
                        reward_checkpoint: old(self).rewards_view().total_cumulated_rewards as u64,
                        unclaimed_rewards: 0,
                    }),
                    ..old(self).rewards_view()
                })
                && final(self).offers_view() == old(self).offers_view().push(SaleOffer { amount: 0, time: 0 }),
            r matches Ok(id) ==> final(self).ledger_view().user_id(address@) == id && 1 <= id < final(self).ledger_view().stakes.len(),
    {
        let id = self.ledger.get_user_id(address);
        if id != 0 {
            return Ok(id);
        }
        if self.ledger.get_num_users() >= usize::MAX - 2 {
            return Err(DelegationError::Overflow);
        }
        let ghost rv0 = self.rewards_view();
        let ghost l0 = self.ledger_view();
        let id = self.ledger.new_user(address);
        self.rewards.add_user();
        self.sale.add_user();
        proof {
            crate::solvency::lemma_solvent_push(rv0, l0, address@);
            assert(self.ledger_view().addresses[0] == old(self).ledger_view().addresses[0]);
        }
        Ok(id)
    }

    /// Adds `amount` to the inactive stake of `caller`, who becomes a user
    /// if not one yet; yields the user id. Fails with `Overflow`, changing
    /// nothing, if the grand total of stake would leave 64 bits.
    pub fn deposit_stake(&mut self, caller: &Vec<u8>, amount: u64) -> (r: Result<usize, DelegationError>)
        requires
            old(self).wf(),
        ensures
            final(self).wf(),
            rewards_monotone(old(self).rewards_view(), final(self).rewards_view()),
            final(self).nodes_view() == old(self).nodes_view(),
            r is Err <==> old(self).ledger_view().stakes[0].total + amount > u64::MAX
                || (old(self).ledger_view().user_id(caller@) == 0 && old(self).ledger_view().stakes.len() >= usize::MAX - 1),
            r is Err ==> r == Err::<usize, DelegationError>(DelegationError::Overflow)
                && same_parts(*final(self), *old(self)),
            r matches Ok(id) ==> {
                &&& id == final(self).ledger_view().user_id(caller@)
                &&& final(self).ledger_view() == crate::ledger::deposited(old(self).ledger_view(), caller@, amount as int)
                &&& old(self).ledger_view().user_id(caller@) != 0 ==> final(self).rewards_view() == old(self).rewards_view()
                    && final(self).offers_view() == old(self).offers_view()
                &&& old(self).ledger_view().user_id(caller@) == 0 ==> final(self).rewards_view() == (RewardsView {
                    users: old(self).rewards_view().users.push(UserRewardData {
                        reward_checkpoint: old(self).rewards_view().total_cumulated_rewards as u64,
                        unclaimed_rewards: 0,
                    }),
                    ..old(self).rewards_view()
                }) && final(self).offers_view() == old(self).offers_view().push(SaleOffer { amount: 0, time: 0 })
            },
    {
        if amount > u64::MAX - self.ledger.get_user_total_stake(USER_STAKE_TOTALS_ID) {
            return Err(DelegationError::Overflow);
        }
        let id = self.get_or_create_user(caller)?;
        let ghost mid = self.ledger_view();
        proof { self.lemma_parts(); }
        let r = self.ledger.deposit(caller, amount);
        proof {
            assert(mid.stakes[id as int].total <= mid.stakes[0].total) by {
                crate::ledger::lemma_user_total_bounded(mid, id as int);
            }
            crate::ledger::lemma_credited(mid.stakes[id as int], FundType::Inactive, amount as int);
            crate::ledger::lemma_credited(mid.stakes[0], FundType::Inactive, amount as int);
            assert(self.ledger_view().addresses[0] == mid.addresses[0]);
            let lf = self.ledger_view();
            assert(lf.stakes[0].of(FundType::Active) == mid.stakes[0].of(FundType::Active));
            assert forall|j: int| 1 <= j < mid.stakes.len() implies
                #[trigger] mid.stakes[j].active == lf.stakes[j].active
                || self.rewards_view().users[j].reward_checkpoint == self.rewards_view().total_cumulated_rewards by {
                if j == id {
                    assert(lf.stakes[j].of(FundType::Active) == mid.stakes[j].of(FundType::Active));
                }
            }
            crate::solvency::lemma_solvent_ledger_change(self.rewards_view(), mid, lf);
        }
        r
    }

    /// Takes `amount` from the inactive stake of `caller`. Fails, changing
    /// nothing, with `UnknownCaller` if `caller` is no user, or with
    /// `InsufficientFunds` if it holds less inactive stake.
    pub fn withdraw_inactive_stake(&mut self, caller: &Vec<u8>, amount: u64) -> (r: Result<(), DelegationError>)
        requires
            old(self).wf(),
        ensures
            final(self).wf(),
            rewards_monotone(old(self).rewards_view(), final(self).rewards_view()),
            final(self).nodes_view() == old(self).nodes_view(),
            final(self).rewards_view() == old(self).rewards_view(),
            old(self).ledger_view().user_id(caller@) == 0 ==> r == Err::<(), DelegationError>(DelegationError::UnknownCaller),
            old(self).ledger_view().user_id(caller@) != 0
                && amount > old(self).ledger_view().stake_of(old(self).ledger_view().user_id(caller@), FundType::Inactive)
                ==> r == Err::<(), DelegationError>(DelegationError::InsufficientFunds),
            old(self).ledger_view().user_id(caller@) != 0
                && amount <= old(self).ledger_view().stake_of(old(self).ledger_view().user_id(caller@), FundType::Inactive)
                ==> r is Ok,
            r is Err ==> final(self).ledger_view() == old(self).ledger_view(),
            r is Ok ==> ({
                let id = old(self).ledger_view().user_id(caller@);
                final(self).ledger_view() == (LedgerView {
                    stakes: old(self).ledger_view().stakes
                        .update(id, debited(old(self).ledger_view().stakes[id], FundType::Inactive, amount as int))
                        .update(0, debited(old(self).ledger_view().stakes[0], FundType::Inactive, amount as int)),
                    addresses: old(self).ledger_view().addresses,
                })
            }),
    {
        proof { self.lemma_parts(); }
        let ghost l0 = self.ledger_view();
        match self.ledger.withdraw_inactive_stake(caller, amount) {
            Ok(id) => {
                proof {
                    crate::ledger::lemma_user_bounded(l0, id as int, FundType::Inactive);
                    crate::ledger::lemma_one_le_sum(l0.stakes[id as int], FundType::Inactive);
                    crate::ledger::lemma_one_le_sum(l0.stakes[0], FundType::Inactive);
                    assert(l0.stakes[id as int].total == l0.stakes[id as int].type_sum());
                    assert(l0.stakes[0].total == l0.stakes[0].type_sum());
                    crate::ledger::lemma_debited(l0.stakes[id as int], FundType::Inactive, amount as int);
                    crate::ledger::lemma_debited(l0.stakes[0], FundType::Inactive, amount as int);
                    let lf = self.ledger_view();
                    assert(lf.stakes[0].of(FundType::Active) == l0.stakes[0].of(FundType::Active));
                    assert forall|j: int| 1 <= j < l0.stakes.len() implies
                        #[trigger] l0.stakes[j].active == lf.stakes[j].active
                        || self.rewards_view().users[j].reward_checkpoint == self.rewards_view().total_cumulated_rewards by {
                        if j == id {
                            assert(lf.stakes[j].of(FundType::Active) == l0.stakes[j].of(FundType::Active));
                        }
                    }
                    crate::solvency::lemma_solvent_ledger_change(self.rewards_view(), l0, lf);
                }
                Ok(())
            },
            Err(e) => Err(e),
        }
    }

    /// Records `amount` of rewards deposited by the staking authority.
    /// Fails with `Overflow`, changing nothing, if the cumulated rewards
    /// would leave 64 bits.
    pub fn receive_rewards(&mut self, amount: u64) -> (r: Result<(), DelegationError>)
        requires
            old(self).wf(),
        ensures
            final(self).wf(),
            rewards_monotone(old(self).rewards_view(), final(self).rewards_view()),
            final(self).nodes_view() == old(self).nodes_view(),
            final(self).ledger_view() == old(self).ledger_view(),
            r is Ok <==> old(self).rewards_view().total_cumulated_rewards + amount <= u64::MAX,
            r is Ok ==> final(self).rewards_view() == (RewardsView {
                total_cumulated_rewards: old(self).rewards_view().total_cumulated_rewards + amount,
                ..old(self).rewards_view()
            }),
            r is Err ==> r == Err::<(), DelegationError>(DelegationError::Overflow)
                && final(self).rewards_view() == old(self).rewards_view(),
    {
        proof {
            self.lemma_parts();
            if self.rewards_view().total_cumulated_rewards + amount <= u64::MAX {
                crate::solvency::lemma_solvent_receive(self.rewards_view(), self.ledger_view(), amount as int);
            }
        }
        self.rewards.receive_rewards(amount)
    }

    /// Up-to-date claimable rewards of `address` (0 when it is no user),
    /// without storing anything.
    pub fn get_claimable_rewards(&self, address: &Vec<u8>) -> (r: u64)
        requires
            self.wf(),
        ensures
            self.ledger_view().user_id(address@) == 0 ==> r == 0,
            self.ledger_view().user_id(address@) != 0 ==> r == self.rewards_view().updated(self.ledger_view(),
                self.ledger_view().user_id(address@)).unclaimed_rewards,
    {
        proof { self.lemma_parts(); }
        let id = self.ledger.get_user_id(address);
        if id == 0 {
            return 0;
        }
        proof { crate::solvency::lemma_solvent_bounds(self.rewards_view(), self.ledger_view(), id as int); }
        match self.rewards.load_updated_user_rewards(&self.ledger, id) {
            Ok(d) => d.unclaimed_rewards,
            Err(_) => 0,
        }
    }

    /// Sends `caller` its up-to-date rewards: yields the amount to transfer,
    /// adds it to the rewards sent, and leaves the caller nothing unclaimed.
    /// Fails, changing nothing, with `UnknownCaller` if `caller` is no user,
    /// or `CheckpointingInProgress` while a global checkpoint reset runs.
    pub fn claim_rewards(&mut self, caller: &Vec<u8>, checkpoint_reset_in_progress: bool) -> (r: Result<u64, DelegationError>)
        requires
            old(self).wf(),
        ensures
            final(self).wf(),
            rewards_monotone(old(self).rewards_view(), final(self).rewards_view()),
            final(self).nodes_view() == old(self).nodes_view(),
            final(self).ledger_view() == old(self).ledger_view(),
            final(self).offers_view() == old(self).offers_view(),
            old(self).ledger_view().user_id(caller@) == 0 ==> r == Err::<u64, DelegationError>(DelegationError::UnknownCaller),
            old(self).ledger_view().user_id(caller@) != 0 && checkpoint_reset_in_progress
                ==> r == Err::<u64, DelegationError>(DelegationError::CheckpointingInProgress),
            old(self).ledger_view().user_id(caller@) != 0 && !checkpoint_reset_in_progress ==> {
                let id = old(self).ledger_view().user_id(caller@);
                let v = old(self).rewards_view();
                let d = v.updated(old(self).ledger_view(), id);
                &&& r == Ok::<u64, DelegationError>(d.unclaimed_rewards)
                &&& final(self).rewards_view().sent_rewards
                    + final(self).rewards_view().unclaimed_sum(final(self).ledger_view(), v.users.len() as int)
                    == v.sent_rewards + v.unclaimed_sum(old(self).ledger_view(), v.users.len() as int)
                &&& final(self).rewards_view() == (RewardsView {
                    sent_rewards: v.sent_rewards + d.unclaimed_rewards,
                    users: v.users.update(id, UserRewardData { unclaimed_rewards: 0, ..d }),
                    ..v
                })
            },
            r is Err ==> final(self).rewards_view() == old(self).rewards_view(),
    {
        proof { self.lemma_parts(); }
        let id = self.ledger.get_user_id(caller);
        if id == 0 {
            return Err(DelegationError::UnknownCaller);
        }
        if checkpoint_reset_in_progress {
            return Err(DelegationError::CheckpointingInProgress);
        }
        proof {
            crate::solvency::lemma_solvent_bounds(self.rewards_view(), self.ledger_view(), id as int);
            crate::solvency::lemma_solvent_claim(self.rewards_view(), self.ledger_view(), id as int);
            crate::solvency::lemma_unclaimed_sum_claim(self.rewards_view(), self.ledger_view(), id as int,
                self.rewards_view().users.len() as int);
            crate::rewards::lemma_unclaimed_nonneg(self.rewards_view(), self.ledger_view(), id as int);
        }
        self.rewards.claim_user_rewards(&self.ledger, id)
    }

    /// Brings the rewards of user `user_id` up to date. Fails with
    /// `UnknownCaller`, changing nothing, if there is no such user.
    pub fn compute_one_user_reward(&mut self, user_id: usize) -> (r: Result<(), DelegationError>)
        requires
            old(self).wf(),
        ensures
            final(self).wf(),
            rewards_monotone(old(self).rewards_view(), final(self).rewards_view()),
            final(self).nodes_view() == old(self).nodes_view(),
            final(self).ledger_view() == old(self).ledger_view(),
            final(self).offers_view() == old(self).offers_view(),
            final(self).owner_view() == old(self).owner_view(),
            final(self).stake_per_node_view() == old(self).stake_per_node_view(),
            final(self).grace_period_view() == old(self).grace_period_view(),
            r is Ok <==> 1 <= user_id < old(self).ledger_view().stakes.len(),
            r is Err ==> r == Err::<(), DelegationError>(DelegationError::UnknownCaller)
                && final(self).rewards_view() == old(self).rewards_view(),
            r is Ok ==> final(self).rewards_view() == (RewardsView {
                users: old(self).rewards_view().users.update(user_id as int,
                    old(self).rewards_view().updated(old(self).ledger_view(), user_id as int)),
                ..old(self).rewards_view()
            }),
    {
        proof { self.lemma_parts(); }
        if user_id == 0 || user_id >= self.rewards.users_len() {
            return Err(DelegationError::UnknownCaller);
        }
        proof {
            crate::solvency::lemma_solvent_bounds(self.rewards_view(), self.ledger_view(), user_id as int);
            crate::solvency::lemma_solvent_compute_one(self.rewards_view(), self.ledger_view(), user_id as int);
            crate::rewards::lemma_unclaimed_nonneg(self.rewards_view(), self.ledger_view(), user_id as int);
        }
        self.rewards.compute_one_user_reward(&self.ledger, user_id)
    }

    /// Sum of every user's up-to-date unclaimed rewards; with the rewards
    /// sent, it stays within the rewards received.
    pub fn get_total_unclaimed_rewards(&self) -> (r: u64)
        requires
            self.wf(),
        ensures
            r == self.rewards_view().unclaimed_sum(self.ledger_view(), self.ledger_view().stakes.len() as int),
            self.rewards_view().sent_rewards + r <= self.rewards_view().total_cumulated_rewards,
    {
        proof {
            self.lemma_parts();
            crate::solvency::lemma_solvent_total(self.rewards_view(), self.ledger_view());
            crate::rewards::lemma_unclaimed_sum_nonneg(self.rewards_view(), self.ledger_view(), self.ledger_view().stakes.len() as int);
        }
        match self.rewards.get_total_unclaimed_rewards(&self.ledger) {
            Ok(v) => v,
            Err(_) => 0,
        }
    }
}

/// The contract's state as mathematical values: configuration, node
/// registry, fund ledger, reward distributor and sale offers.
pub trait DelegationState: Sized {
    /// Address of the contract owner.
    spec fn owner_view(&self) -> Seq<u8>;

    /// Stake each validator node requires.
    spec fn stake_per_node_view(&self) -> int;

    /// How long a stake-for-sale offer must stand before its maker may force nodes to unstake.
    spec fn grace_period_view(&self) -> int;

    /// The node registry.
    spec fn nodes_view(&self) -> NodesView;

    /// The fund ledger.
    spec fn ledger_view(&self) -> LedgerView;

    /// The reward distributor.
    spec fn rewards_view(&self) -> RewardsView;

    /// Each user's stake-for-sale offer, by user id.
    spec fn offers_view(&self) -> Seq<SaleOffer>;

    /// The parts are each well formed, user slots line up across them, the
    /// owner is the first user, and the rewards sent plus all that is owed to
    /// the users stay within the rewards received.
    spec fn wf(&self) -> bool;

    /// Stake that `n` nodes require.
    spec fn stake_of_nodes(&self, n: int) -> int;
}

impl DelegationState for Delegation {
    closed spec fn owner_view(&self) -> Seq<u8> {
        self.owner@
    }

    closed spec fn stake_per_node_view(&self) -> int {
        self.stake_per_node as int
    }

    closed spec fn grace_period_view(&self) -> int {
        self.time_before_force_unstake as int
    }

    closed spec fn nodes_view(&self) -> NodesView {
        self.nodes@
    }

    closed spec fn ledger_view(&self) -> LedgerView {
        self.ledger@
    }

    closed spec fn rewards_view(&self) -> RewardsView {
        self.rewards@
    }

    closed spec fn offers_view(&self) -> Seq<SaleOffer> {
        self.sale@
    }

    open spec fn wf(&self) -> bool {
        &&& self.nodes_view().wf()
        &&& self.ledger_view().wf()
        &&& self.rewards_view().wf()
        &&& self.rewards_view().users.len() == self.ledger_view().stakes.len()
        &&& self.offers_view().len() == self.ledger_view().stakes.len()
        &&& self.ledger_view().addresses.len() >= 1
        &&& self.ledger_view().addresses[0] == self.owner_view()
        &&& solvent(self.rewards_view(), self.ledger_view())
    }

    open spec fn stake_of_nodes(&self, n: int) -> int {
        n * self.stake_per_node_view()
    }
}

/// The four two-phase lifecycle operations that move nodes and stake
/// together: an optimistic local step that yields the affected node ids, and a callback
/// that finalizes or compensates when the staking authority answers.
pub trait ContractStakeModule: DelegationState {
    /// Stake currently earning rewards: the aggregate of the active fund type.
    fn get_total_active_stake(&self) -> (r: u64)
        requires
            self.wf(),
        ensures
            r == self.ledger_view().stakes[0].of(FundType::Active),
    ;

    /// Owner-only. Starts activating the nodes with the given keys, each with
    /// the signature paired to it: the nodes become pending activation and
    /// their stake moves from inactive to pending activation, oldest users
    /// first. Yields the node ids, which the staking authority's answer must
    /// carry back. Fails, changing nothing, with `NotOwner`, then
    /// `MalformedInput` (a key or signature of the wrong length), then
    /// `UnexpectedState` (a node unknown, not inactive, or named twice), then
    /// `InsufficientFunds` (not enough inactive stake).
    fn activate_nodes(&mut self, caller: &Vec<u8>, bls_keys_signatures: &Vec<(Vec<u8>, Vec<u8>)>) -> (r: Result<Vec<usize>, DelegationError>)
        requires
            old(self).wf(),
        ensures
            final(self).wf(),
            rewards_monotone(old(self).rewards_view(), final(self).rewards_view()),
            ({
                let pv = pair_views(bls_keys_signatures@);
                let ids = ids_of(old(self).nodes_view(), pair_keys(pv));
                let owner = caller@ == old(self).owner_view();
                let sized = forall|k: int| 0 <= k < pv.len() ==> well_sized(#[trigger] pv[k]);
                let valid = all_in_state(old(self).nodes_view(), ids, NodeState::Inactive) && distinct(ids);
                let amount = old(self).stake_of_nodes(pv.len() as int);
                let enough = amount <= old(self).ledger_view().stakes[0].of(FundType::Inactive);
                &&& !owner ==> r == Err::<Vec<usize>, DelegationError>(DelegationError::NotOwner)
                &&& owner && !sized ==> r == Err::<Vec<usize>, DelegationError>(DelegationError::MalformedInput)
                &&& owner && sized && !valid ==> r == Err::<Vec<usize>, DelegationError>(DelegationError::UnexpectedState)
                &&& owner && sized && valid && !enough ==> r == Err::<Vec<usize>, DelegationError>(DelegationError::InsufficientFunds)
                &&& owner && sized && valid && enough ==> r is Ok
                &&& r matches Ok(v) ==> v@ == ids
                    && final(self).nodes_view() == old(self).nodes_view().with_states(ids, NodeState::PendingActivation)
                    && final(self).ledger_view() == ledger_transformed(old(self).ledger_view(),
                        FundType::Inactive, FundType::PendingActivation, amount, SweepOrder::Ascending)
                    && final(self).rewards_view() == old(self).rewards_view()
                    && final(self).offers_view() == old(self).offers_view()
            }),
            r is Err ==> same_parts(*final(self), *old(self)),
            final(self).owner_view() == old(self).owner_view(),
            final(self).stake_per_node_view() == old(self).stake_per_node_view(),
            final(self).grace_period_view() == old(self).grace_period_view(),
    ;

    /// The staking authority's answer to an activation of `node_ids`. On
    /// success all rewards are brought up to date first (the rewardable
    /// stake changes), then the nodes become active and their stake moves
    /// from pending activation to active; on failure the nodes and their
    /// stake go back to inactive. Both sweeps go oldest users first. Fails,
    /// changing nothing, with `UnexpectedState` (a node not pending
    /// activation, or named twice) or `InsufficientFunds` (less stake
    /// pending activation than the nodes need).
    fn auction_stake_callback(&mut self, node_ids: &Vec<usize>, success: bool) -> (r: Result<(), DelegationError>)
        requires
            old(self).wf(),
        ensures
            final(self).wf(),
            rewards_monotone(old(self).rewards_view(), final(self).rewards_view()),
            ({
                let valid = all_in_state(old(self).nodes_view(), node_ids@, NodeState::PendingActivation) && distinct(node_ids@);
                let amount = old(self).stake_of_nodes(node_ids@.len() as int);
                let enough = amount <= old(self).ledger_view().stakes[0].of(FundType::PendingActivation);
                &&& !valid ==> r == Err::<(), DelegationError>(DelegationError::UnexpectedState)
                &&& valid && !enough ==> r == Err::<(), DelegationError>(DelegationError::InsufficientFunds)
                &&& valid && enough && success ==> r is Ok
                    && final(self).rewards_view() == old(self).rewards_view().all_updated(old(self).ledger_view())
                    && final(self).nodes_view() == old(self).nodes_view().with_states(node_ids@, NodeState::Active)
                    && final(self).ledger_view() == ledger_transformed(old(self).ledger_view(),
                        FundType::PendingActivation, FundType::Active, amount, SweepOrder::Ascending)
                &&& valid && enough && !success ==> r is Ok
                    && final(self).rewards_view() == old(self).rewards_view()
                    && final(self).nodes_view() == old(self).nodes_view().with_states(node_ids@, NodeState::Inactive)
                    && final(self).ledger_view() == ledger_transformed(old(self).ledger_view(),
                        FundType::PendingActivation, FundType::Inactive, amount, SweepOrder::Ascending)
            }),
            r is Err ==> same_parts(*final(self), *old(self)),
            final(self).offers_view() == old(self).offers_view(),
            final(self).owner_view() == old(self).owner_view(),
            final(self).stake_per_node_view() == old(self).stake_per_node_view(),
            final(self).grace_period_view() == old(self).grace_period_view(),
    ;

    /// Owner-only. Starts deactivating the active nodes with the given keys:
    /// rewards are brought up to date, the nodes become pending deactivation
    /// and their stake moves from active to pending deactivation, newest
    /// users first. Yields the node ids. Fails, changing nothing, with
    /// `NotOwner`, then `UnexpectedState` (a node unknown, not active, or
    /// named twice), then `InsufficientFunds`.
    fn deactivate_nodes(&mut self, caller: &Vec<u8>, bls_keys: &Vec<Vec<u8>>) -> (r: Result<Vec<usize>, DelegationError>)
        requires
            old(self).wf(),
        ensures
            final(self).wf(),
            rewards_monotone(old(self).rewards_view(), final(self).rewards_view()),
            ({
                let ids = ids_of(old(self).nodes_view(), key_views(bls_keys@));
                let owner = caller@ == old(self).owner_view();
                let valid = all_in_state(old(self).nodes_view(), ids, NodeState::Active) && distinct(ids);
                let amount = old(self).stake_of_nodes(ids.len() as int);
                let enough = amount <= old(self).ledger_view().stakes[0].of(FundType::Active);
                &&& !owner ==> r == Err::<Vec<usize>, DelegationError>(DelegationError::NotOwner)
                &&& owner && !valid ==> r == Err::<Vec<usize>, DelegationError>(DelegationError::UnexpectedState)
                &&& owner && valid && !enough ==> r == Err::<Vec<usize>, DelegationError>(DelegationError::InsufficientFunds)
                &&& owner && valid && enough ==> r is Ok
                &&& r matches Ok(v) ==> v@ == ids
                    && final(self).rewards_view() == old(self).rewards_view().all_updated(old(self).ledger_view())
                    && final(self).nodes_view() == old(self).nodes_view().with_states(ids, NodeState::PendingDeactivation)
                    && final(self).ledger_view() == ledger_deactivated(old(self).ledger_view(), None, amount)
            }),
            r is Err ==> same_parts(*final(self), *old(self)),
            final(self).offers_view() == old(self).offers_view(),
            final(self).owner_view() == old(self).owner_view(),
            final(self).stake_per_node_view() == old(self).stake_per_node_view(),
            final(self).grace_period_view() == old(self).grace_period_view(),
    ;

    /// The staking authority's answer to a deactivation of `node_ids`. On
    /// success the nodes enter their unbond period and their stake moves from
    /// pending deactivation to the unbond period; on failure all rewards are
    /// brought up to date (the rewardable stake changes) and nodes and stake
    /// go back to active. Both sweeps go newest users first. Fails, changing
    /// nothing, with `UnexpectedState` (a node not pending deactivation, or
    /// named twice) or `InsufficientFunds`.
    fn auction_unstake_callback(&mut self, node_ids: &Vec<usize>, success: bool) -> (r: Result<(), DelegationError>)
        requires
            old(self).wf(),
        ensures
            final(self).wf(),
            rewards_monotone(old(self).rewards_view(), final(self).rewards_view()),
            ({
                let valid = all_in_state(old(self).nodes_view(), node_ids@, NodeState::PendingDeactivation) && distinct(node_ids@);
                let amount = old(self).stake_of_nodes(node_ids@.len() as int);
                let enough = amount <= old(self).ledger_view().stakes[0].of(FundType::PendingDeactivation);
                &&& !valid ==> r == Err::<(), DelegationError>(DelegationError::UnexpectedState)
                &&& valid && !enough ==> r == Err::<(), DelegationError>(DelegationError::InsufficientFunds)
                &&& valid && enough && success ==> r is Ok
                    && final(self).rewards_view() == old(self).rewards_view()
                    && final(self).nodes_view() == old(self).nodes_view().with_states(node_ids@, NodeState::UnBondPeriod)
                    && final(self).ledger_view() == ledger_transformed(old(self).ledger_view(),
                        FundType::PendingDeactivation, FundType::UnBondPeriod, amount, SweepOrder::Descending)
                &&& valid && enough && !success ==> r is Ok
                    && final(self).rewards_view() == old(self).rewards_view().all_updated(old(self).ledger_view())
                    && final(self).nodes_view() == old(self).nodes_view().with_states(node_ids@, NodeState::Active)
                    && final(self).ledger_view() == ledger_transformed(old(self).ledger_view(),
                        FundType::PendingDeactivation, FundType::Active, amount, SweepOrder::Descending)
            }),
            r is Err ==> same_parts(*final(self), *old(self)),
            final(self).offers_view() == old(self).offers_view(),
            final(self).owner_view() == old(self).owner_view(),
            final(self).stake_per_node_view() == old(self).stake_per_node_view(),
            final(self).grace_period_view() == old(self).grace_period_view(),
    ;

    /// Anyone may start unbonding the nodes with the given keys, which must
    /// be in their unbond period: the nodes become pending unbond and their
    /// stake moves from the unbond period to pending unbond, newest users
    /// first. Yields the node ids. Fails, changing nothing, with
    /// `UnexpectedState` (a node unknown, not in its unbond period, or named
    /// twice) or `InsufficientFunds`.
    fn unbond(&mut self, bls_keys: &Vec<Vec<u8>>) -> (r: Result<Vec<usize>, DelegationError>)
        requires
            old(self).wf(),
        ensures
            final(self).wf(),
            rewards_monotone(old(self).rewards_view(), final(self).rewards_view()),
            final(self).rewards_view() == old(self).rewards_view(),
            ({
                let ids = ids_of(old(self).nodes_view(), key_views(bls_keys@));
                let valid = all_in_state(old(self).nodes_view(), ids, NodeState::UnBondPeriod) && distinct(ids);
                let amount = old(self).stake_of_nodes(ids.len() as int);
                let enough = amount <= old(self).ledger_view().stakes[0].of(FundType::UnBondPeriod);
                &&& !valid ==> r == Err::<Vec<usize>, DelegationError>(DelegationError::UnexpectedState)
                &&& valid && !enough ==> r == Err::<Vec<usize>, DelegationError>(DelegationError::InsufficientFunds)
                &&& valid && enough ==> r is Ok
                &&& r matches Ok(v) ==> v@ == ids
                    && final(self).nodes_view() == old(self).nodes_view().with_states(ids, NodeState::PendingUnBond)
                    && final(self).ledger_view() == ledger_transformed(old(self).ledger_view(),
                        FundType::UnBondPeriod, FundType::PendingUnBond, amount, SweepOrder::Descending)
            }),
            r is Err ==> same_parts(*final(self), *old(self)),
            final(self).offers_view() == old(self).offers_view(),
            final(self).owner_view() == old(self).owner_view(),
            final(self).stake_per_node_view() == old(self).stake_per_node_view(),
            final(self).grace_period_view() == old(self).grace_period_view(),
    ;

    /// The staking authority's answer to an unbond of `node_ids`. On success
    /// nodes and stake become inactive again; on failure they go back to the
    /// unbond period. Both sweeps go newest users first. Fails, changing
    /// nothing, with `UnexpectedState` (a node not pending unbond, or named
    /// twice) or `InsufficientFunds`.
    fn auction_unbond_callback(&mut self, node_ids: &Vec<usize>, success: bool) -> (r: Result<(), DelegationError>)
        requires
            old(self).wf(),
        ensures
            final(self).wf(),
            rewards_monotone(old(self).rewards_view(), final(self).rewards_view()),
            final(self).rewards_view() == old(self).rewards_view(),
            ({
                let valid = all_in_state(old(self).nodes_view(), node_ids@, NodeState::PendingUnBond) && distinct(node_ids@);
                let amount = old(self).stake_of_nodes(node_ids@.len() as int);
                let enough = amount <= old(self).ledger_view().stakes[0].of(FundType::PendingUnBond);
                &&& !valid ==> r == Err::<(), DelegationError>(DelegationError::UnexpectedState)
                &&& valid && !enough ==> r == Err::<(), DelegationError>(DelegationError::InsufficientFunds)
                &&& valid && enough && success ==> r is Ok
                    && final(self).nodes_view() == old(self).nodes_view().with_states(node_ids@, NodeState::Inactive)
                    && final(self).ledger_view() == ledger_transformed(old(self).ledger_view(),
                        FundType::PendingUnBond, FundType::Inactive, amount, SweepOrder::Descending)
                &&& valid && enough && !success ==> r is Ok
                    && final(self).nodes_view() == old(self).nodes_view().with_states(node_ids@, NodeState::UnBondPeriod)
                    && final(self).ledger_view() == ledger_transformed(old(self).ledger_view(),
                        FundType::PendingUnBond, FundType::UnBondPeriod, amount, SweepOrder::Descending)
            }),
            r is Err ==> same_parts(*final(self), *old(self)),
            final(self).offers_view() == old(self).offers_view(),
            final(self).owner_view() == old(self).owner_view(),
            final(self).stake_per_node_view() == old(self).stake_per_node_view(),
            final(self).grace_period_view() == old(self).grace_period_view(),
    ;

    /// A delegator whose stake-for-sale offer has stood longer than the
    /// grace period forces nodes to unstake: walking down from the highest
    /// node id, active nodes are taken until their stake covers the offer;
    /// rewards are brought up to date; the nodes become pending deactivation
    /// and their stake moves from active to pending deactivation, the
    /// caller's own active stake first, then newest users first. Yields the
    /// node ids. Fails, changing nothing, with `UnknownCaller`, then
    /// `NoStakeForSale`, then `TooSoon` (`now` not past the offer time plus
    /// the grace period), then `InsufficientFunds`.
    fn force_unstake(&mut self, caller: &Vec<u8>, now: u64) -> (r: Result<Vec<usize>, DelegationError>)
        requires
            old(self).wf(),
        ensures
            final(self).wf(),
            rewards_monotone(old(self).rewards_view(), final(self).rewards_view()),
            ({
                let uid = old(self).ledger_view().user_id(caller@);
                let offer = old(self).offers_view()[uid];
                let ids = force_selection(old(self).nodes_view(), old(self).nodes_view().num_nodes(),
                    offer.amount as int, old(self).stake_per_node_view());
                let amount = old(self).stake_of_nodes(ids.len() as int);
                let enough = amount <= old(self).ledger_view().stakes[0].of(FundType::Active);
                &&& uid == 0 ==> r == Err::<Vec<usize>, DelegationError>(DelegationError::UnknownCaller)
                &&& uid != 0 && offer.amount == 0 ==> r == Err::<Vec<usize>, DelegationError>(DelegationError::NoStakeForSale)
                &&& uid != 0 && offer.amount != 0 && now <= offer.time + old(self).grace_period_view()
                    ==> r == Err::<Vec<usize>, DelegationError>(DelegationError::TooSoon)
                &&& uid != 0 && offer.amount != 0 && now > offer.time + old(self).grace_period_view() ==> {
                    &&& !enough ==> r == Err::<Vec<usize>, DelegationError>(DelegationError::InsufficientFunds)
                    &&& enough ==> r is Ok
                }
                &&& r matches Ok(v) ==> v@ == ids
                    && final(self).rewards_view() == old(self).rewards_view().all_updated(old(self).ledger_view())
                    && final(self).nodes_view() == old(self).nodes_view().with_states(ids, NodeState::PendingDeactivation)
                    && final(self).ledger_view() == ledger_deactivated(old(self).ledger_view(), Some(uid as usize), amount)
            }),
            r is Err ==> same_parts(*final(self), *old(self)),
            final(self).offers_view() == old(self).offers_view(),
            final(self).owner_view() == old(self).owner_view(),
            final(self).stake_per_node_view() == old(self).stake_per_node_view(),
            final(self).grace_period_view() == old(self).grace_period_view(),
    ;
}

/// Stake trade among delegators: offers of active stake for sale, and
/// purchases paid outside the contract.
pub trait StakeSaleModule: DelegationState {
    /// Records `caller`'s offer to sell `amount` of its active stake,
    /// replacing any earlier offer. Fails, changing nothing, with
    /// `UnknownCaller` if `caller` is no user, or `InsufficientFunds` if it
    /// holds less active stake.
    fn offer_stake_for_sale(&mut self, caller: &Vec<u8>, amount: u64, now: u64) -> (r: Result<(), DelegationError>)
        requires
            old(self).wf(),
        ensures
            final(self).wf(),
            rewards_monotone(old(self).rewards_view(), final(self).rewards_view()),
            final(self).nodes_view() == old(self).nodes_view(),
            final(self).ledger_view() == old(self).ledger_view(),
            final(self).rewards_view() == old(self).rewards_view(),
            old(self).ledger_view().user_id(caller@) == 0 ==> r == Err::<(), DelegationError>(DelegationError::UnknownCaller),
            old(self).ledger_view().user_id(caller@) != 0 ==> {
                let id = old(self).ledger_view().user_id(caller@);
                &&& amount > old(self).ledger_view().stake_of(id, FundType::Active)
                    ==> r == Err::<(), DelegationError>(DelegationError::InsufficientFunds)
                &&& amount <= old(self).ledger_view().stake_of(id, FundType::Active)
                    ==> r is Ok && final(self).offers_view() == old(self).offers_view().update(id, SaleOffer { amount, time: now })
            },
            r is Err ==> final(self).offers_view() == old(self).offers_view(),
    ;

    /// Stake that `address` offers for sale (0 when it is no user).
    fn get_stake_for_sale(&self, address: &Vec<u8>) -> (r: u64)
        requires
            self.wf(),
        ensures
            self.ledger_view().user_id(address@) == 0 ==> r == 0,
            self.ledger_view().user_id(address@) != 0 ==> r == self.offers_view()[self.ledger_view().user_id(address@)].amount,
    ;

    /// `caller` buys `payment` of the active stake that `seller` offers,
    /// paying outside the contract; the payment is forwarded to the seller.
    /// The buyer becomes a user if not one yet; the rewards of seller and
    /// buyer are brought up to date, so that each is paid for the stake it
    /// held; then the offer shrinks by the payment, and active and total
    /// stake move from seller to buyer. A zero payment
    /// does nothing. Fails, changing nothing, with `UnknownCaller` (the
    /// seller is no user), `PaymentExceedsOffer` (the payment exceeds the
    /// offer or the seller's active stake) or `Overflow` (no room for a new
    /// user).
    fn purchase_stake(&mut self, caller: &Vec<u8>, seller: &Vec<u8>, payment: u64) -> (r: Result<(), DelegationError>)
        requires
            old(self).wf(),
        ensures
            final(self).wf(),
            rewards_monotone(old(self).rewards_view(), final(self).rewards_view()),
            final(self).nodes_view() == old(self).nodes_view(),
            ({
                let l = old(self).ledger_view();
                let sid = l.user_id(seller@);
                let offer = old(self).offers_view()[sid];
                let exceeds = payment > offer.amount || payment > l.stakes[sid].of(FundType::Active);
                let room = l.user_id(caller@) != 0 || l.stakes.len() < usize::MAX - 1;
                let base = crate::ledger::with_user(l, caller@);
                let bid = base.user_id(caller@);
                &&& payment == 0 ==> r is Ok && same_parts(*final(self), *old(self))
                &&& payment != 0 && sid == 0 ==> r == Err::<(), DelegationError>(DelegationError::UnknownCaller)
                &&& payment != 0 && sid != 0 && exceeds ==> r == Err::<(), DelegationError>(DelegationError::PaymentExceedsOffer)
                &&& payment != 0 && sid != 0 && !exceeds && !room ==> r == Err::<(), DelegationError>(DelegationError::Overflow)
                &&& payment != 0 && sid != 0 && !exceeds && room ==> r is Ok
                    && final(self).ledger_view() == (LedgerView {
                        stakes: stakes_traded(base.stakes, sid, bid, payment as int),
                        addresses: base.addresses,
                    })
                    && final(self).ledger_view().stakes[0] == l.stakes[0]
                    && final(self).rewards_view() == rewards_settled(
                        rewards_with_user(old(self).rewards_view(), l, caller@), base, sid, bid)
                    && final(self).offers_view() == offers_with_user(old(self).offers_view(), l, caller@)
                        .update(sid, SaleOffer { amount: (offer.amount - payment) as u64, time: offer.time })
            }),
            r is Err ==> same_parts(*final(self), *old(self)),
            final(self).owner_view() == old(self).owner_view(),
            final(self).stake_per_node_view() == old(self).stake_per_node_view(),
            final(self).grace_period_view() == old(self).grace_period_view(),
    ;
}

/// The owner's recovery of balance that the ledger does not account for.
pub trait UnexpectedBalanceModule: DelegationState {
    /// Balance beyond what the contract is known to hold: inactive and
    /// withdraw-only stake, and rewards received but not sent. `balance` is
    /// the contract's actual balance; a shortfall counts as no surplus.
    fn get_unexpected_balance(&self, balance: u64) -> (r: u64)
        requires
            self.wf(),
        ensures
            r == clip_to_zero(balance - expected_balance(self.ledger_view(), self.rewards_view())),
    ;

    /// The owner takes out the unexpected balance: yields the amount to send.
    /// Fails with `NotOwner` for anyone else.
    fn withdraw_unexpected_balance(&self, caller: &Vec<u8>, balance: u64) -> (r: Result<u64, DelegationError>)
        requires
            self.wf(),
        ensures
            caller@ != self.owner_view() ==> r == Err::<u64, DelegationError>(DelegationError::NotOwner),
            caller@ == self.owner_view() ==> r == Ok::<u64, DelegationError>(
                clip_to_zero(balance - expected_balance(self.ledger_view(), self.rewards_view())) as u64),
    ;
}

impl ContractStakeModule for Delegation {
    fn get_total_active_stake(&self) -> (r: u64)
    {
        self.ledger.get_user_stake_of_type(USER_STAKE_TOTALS_ID, FundType::Active)
    }

    fn activate_nodes(&mut self, caller: &Vec<u8>, bls_keys_signatures: &Vec<(Vec<u8>, Vec<u8>)>) -> (r: Result<Vec<usize>, DelegationError>)
    {
        if !self.is_owner(caller) {
            return Err(DelegationError::NotOwner);
        }
        let ghost pv = pair_views(bls_keys_signatures@);
        let n = bls_keys_signatures.len();
        let mut keys: Vec<Vec<u8>> = Vec::new();
        let mut k: usize = 0;
        while k < n
            invariant
                self.wf(),
                same_parts(*self, *old(self)),
                caller@ == self.owner_view(),
                n == pv.len(),
                pv == pair_views(bls_keys_signatures@),
                k <= n,
                forall|j: int| 0 <= j < k ==> well_sized(#[trigger] pv[j]),
                key_views(keys@) == pair_keys(pv).subrange(0, k as int),
            decreases n - k,
        {
            if bls_keys_signatures[k].0.len() != crate::types::BLS_KEY_BYTE_LENGTH
                || bls_keys_signatures[k].1.len() != crate::types::BLS_SIGNATURE_BYTE_LENGTH {
                proof { assert(!well_sized(pv[k as int])); }
                return Err(DelegationError::MalformedInput);
            }
            let key = bls_keys_signatures[k].0.clone();
            proof {
                assert(key@ == pv[k as int].0);
            }
            let ghost prev = keys@;
            keys.push(key);
            k = k + 1;
            proof {
                assert(key_views(prev).len() == prev.len());
                assert(pair_keys(pv).subrange(0, k - 1).len() == k - 1);
                assert(keys@ == prev.push(key));
                assert(key_views(keys@).len() == k);
                assert forall|j: int| 0 <= j < k implies #[trigger] key_views(keys@)[j] == pair_keys(pv).subrange(0, k as int)[j] by {
                    if j < k - 1 {
                        assert(keys@[j] == prev[j]);
                        assert(key_views(prev)[j] == pair_keys(pv).subrange(0, k - 1)[j]);
                    }
                }
                assert(key_views(keys@) =~= pair_keys(pv).subrange(0, k as int));
            }
        }
        proof {
            assert(key_views(keys@) =~= pair_keys(pv));
        }
        let (ids, amount) = self.check_request(&keys, NodeState::Inactive, FundType::Inactive)?;
        proof {
            assert(all_in_state(self.nodes_view(), ids@, NodeState::Inactive));
        }
        self.move_nodes_and_stake(&ids, NodeState::PendingActivation, FundType::Inactive, FundType::PendingActivation,
            amount, SweepOrder::Ascending);
        Ok(ids)
    }

    fn auction_stake_callback(&mut self, node_ids: &Vec<usize>, success: bool) -> (r: Result<(), DelegationError>)
    {
        let amount = self.check_callback(node_ids, NodeState::PendingActivation, FundType::PendingActivation)?;
        proof { self.lemma_parts(); }
        if success {
            self.catch_up_all();
            self.move_nodes_and_stake(node_ids, NodeState::Active, FundType::PendingActivation, FundType::Active,
                amount, SweepOrder::Ascending);
        } else {
            self.move_nodes_and_stake(node_ids, NodeState::Inactive, FundType::PendingActivation, FundType::Inactive,
                amount, SweepOrder::Ascending);
        }
        Ok(())
    }

    fn deactivate_nodes(&mut self, caller: &Vec<u8>, bls_keys: &Vec<Vec<u8>>) -> (r: Result<Vec<usize>, DelegationError>)
    {
        if !self.is_owner(caller) {
            return Err(DelegationError::NotOwner);
        }
        let (ids, amount) = self.check_request(bls_keys, NodeState::Active, FundType::Active)?;
        proof {
            assert(all_in_state(self.nodes_view(), ids@, NodeState::Active));
        }
        self.perform_deactivate_nodes(None, &ids, amount);
        Ok(ids)
    }

    fn auction_unstake_callback(&mut self, node_ids: &Vec<usize>, success: bool) -> (r: Result<(), DelegationError>)
    {
        let amount = self.check_callback(node_ids, NodeState::PendingDeactivation, FundType::PendingDeactivation)?;
        if success {
            self.move_nodes_and_stake(node_ids, NodeState::UnBondPeriod, FundType::PendingDeactivation, FundType::UnBondPeriod,
                amount, SweepOrder::Descending);
        } else {
            self.catch_up_all();
            self.move_nodes_and_stake(node_ids, NodeState::Active, FundType::PendingDeactivation, FundType::Active,
                amount, SweepOrder::Descending);
        }
        Ok(())
    }

    fn unbond(&mut self, bls_keys: &Vec<Vec<u8>>) -> (r: Result<Vec<usize>, DelegationError>)
    {
        let (ids, amount) = self.check_request(bls_keys, NodeState::UnBondPeriod, FundType::UnBondPeriod)?;
        proof {
            assert(all_in_state(self.nodes_view(), ids@, NodeState::UnBondPeriod));
        }
        self.move_nodes_and_stake(&ids, NodeState::PendingUnBond, FundType::UnBondPeriod, FundType::PendingUnBond,
            amount, SweepOrder::Descending);
        Ok(ids)
    }

    fn auction_unbond_callback(&mut self, node_ids: &Vec<usize>, success: bool) -> (r: Result<(), DelegationError>)
    {
        let amount = self.check_callback(node_ids, NodeState::PendingUnBond, FundType::PendingUnBond)?;
        if success {
            self.move_nodes_and_stake(node_ids, NodeState::Inactive, FundType::PendingUnBond, FundType::Inactive,
                amount, SweepOrder::Descending);
        } else {
            self.move_nodes_and_stake(node_ids, NodeState::UnBondPeriod, FundType::PendingUnBond, FundType::UnBondPeriod,
                amount, SweepOrder::Descending);
        }
        Ok(())
    }

    fn force_unstake(&mut self, caller: &Vec<u8>, now: u64) -> (r: Result<Vec<usize>, DelegationError>)
    {
        proof { self.lemma_parts(); }
        let uid = self.ledger.get_user_id(caller);
        if uid == 0 {
            return Err(DelegationError::UnknownCaller);
        }
        let offer = self.sale.get_offer(uid);
        if offer.amount == 0 {
            return Err(DelegationError::NoStakeForSale);
        }
        if (now as u128) <= (offer.time as u128) + (self.time_before_force_unstake as u128) {
            return Err(DelegationError::TooSoon);
        }
        let ids = self.select_nodes_to_unstake(offer.amount);
        let amount = self.stake_for_nodes(ids.len());
        if amount > self.ledger.get_user_stake_of_type(USER_STAKE_TOTALS_ID, FundType::Active) as u128 {
            return Err(DelegationError::InsufficientFunds);
        }
        self.perform_deactivate_nodes(Some(uid), &ids, amount as u64);
        Ok(ids)
    }
}

impl StakeSaleModule for Delegation {
    fn offer_stake_for_sale(&mut self, caller: &Vec<u8>, amount: u64, now: u64) -> (r: Result<(), DelegationError>)
    {
        proof { self.lemma_parts(); }
        self.sale.offer_stake_for_sale(&self.ledger, caller, amount, now)
    }

    fn get_stake_for_sale(&self, address: &Vec<u8>) -> (r: u64)
    {
        proof { self.lemma_parts(); }
        self.sale.get_stake_for_sale(&self.ledger, address)
    }

    fn purchase_stake(&mut self, caller: &Vec<u8>, seller: &Vec<u8>, payment: u64) -> (r: Result<(), DelegationError>)
    {
        proof { self.lemma_parts(); }
        if payment == 0 {
            return Ok(());
        }
        let sid = self.ledger.get_user_id(seller);
        if sid == 0 {
            return Err(DelegationError::UnknownCaller);
        }
        let offer = self.sale.get_offer(sid);
        if payment > offer.amount || payment > self.ledger.get_user_stake_of_type(sid, FundType::Active) {
            return Err(DelegationError::PaymentExceedsOffer);
        }
        let bid = self.get_or_create_user(caller)?;
        let ghost mid = self.ledger_view();
        proof {
            self.lemma_parts();
            crate::ledger::lemma_user_id(mid, seller@, sid - 1);
        }
        let c1 = self.compute_one_user_reward(sid);
        let c2 = self.compute_one_user_reward(bid);
        proof {
            assert(c1 is Ok && c2 is Ok);
            self.lemma_parts();
        }
        let ghost rv = self.rewards_view();
        self.sale.reduce_offer(sid, payment);
        let t = self.ledger.transfer_active_stake(sid, bid, payment);
        proof {
            assert(t is Ok);
            assert(self.ledger_view().stakes =~= stakes_traded(mid.stakes, sid as int, bid as int, payment as int));
            assert(self.ledger_view().addresses[0] == mid.addresses[0]);
            assert(rv.users[sid as int].reward_checkpoint == rv.total_cumulated_rewards);
            assert(rv.users[bid as int].reward_checkpoint == rv.total_cumulated_rewards);
            assert forall|j: int| 1 <= j < mid.stakes.len() implies
                #[trigger] mid.stakes[j].active == self.ledger_view().stakes[j].active
                || rv.users[j].reward_checkpoint == rv.total_cumulated_rewards by {
                if j != sid && j != bid {
                    assert(self.ledger_view().stakes[j] == mid.stakes[j]);
                }
            }
            crate::solvency::lemma_solvent_ledger_change(rv, mid, self.ledger_view());
        }
        Ok(())
    }
}

impl UnexpectedBalanceModule for Delegation {
    fn get_unexpected_balance(&self, balance: u64) -> (r: u64)
    {
        proof { self.lemma_parts(); }
        let inactive = self.ledger.get_user_stake_of_type(USER_STAKE_TOTALS_ID, FundType::Inactive) as u128;
        let withdraw_only = self.ledger.get_user_stake_of_type(USER_STAKE_TOTALS_ID, FundType::WithdrawOnly) as u128;
        let unsent = (self.rewards.get_total_cumulated_rewards() - self.rewards.get_sent_rewards()) as u128;
        let expected = inactive + withdraw_only + unsent;
        if (balance as u128) > expected {
            (balance as u128 - expected) as u64
        } else {
            0
        }
    }

    fn withdraw_unexpected_balance(&self, caller: &Vec<u8>, balance: u64) -> (r: Result<u64, DelegationError>)
    {
        if !self.is_owner(caller) {
            return Err(DelegationError::NotOwner);
        }
        Ok(self.get_unexpected_balance(balance))
    }
}

/// The keys of a list of key/signature pairs.
pub open spec fn pair_keys(pairs: Seq<(Seq<u8>, Seq<u8>)>) -> Seq<Seq<u8>> {
    Seq::new(pairs.len(), |k: int| pairs[k].0)
}

/// Configuration, registry, ledger, rewards and offers of `a` and `b` agree.
pub open spec fn same_parts<D: DelegationState>(a: D, b: D) -> bool {
    &&& a.owner_view() == b.owner_view()
    &&& a.stake_per_node_view() == b.stake_per_node_view()
    &&& a.grace_period_view() == b.grace_period_view()
    &&& a.nodes_view() == b.nodes_view()
    &&& a.ledger_view() == b.ledger_view()
    &&& a.rewards_view() == b.rewards_view()
    &&& a.offers_view() == b.offers_view()
}

/// The ledger after an ordered transform.
pub open spec fn ledger_transformed(l: LedgerView, from: FundType, to: FundType, amount: int, order: SweepOrder) -> LedgerView {
    LedgerView { stakes: transformed(l.stakes, from, to, amount, order), addresses: l.addresses }
}

/// The ledger after deactivating `amount` of active stake: the requester,
/// if any, gives up its own active stake first, and the rest is drawn in
/// descending user order.
pub open spec fn ledger_deactivated(l: LedgerView, requester: Option<usize>, amount: int) -> LedgerView {
    match requester {
        None => ledger_transformed(l, FundType::Active, FundType::PendingDeactivation, amount, SweepOrder::Descending),
        Some(u) => {
            let d = crate::ledger::min(amount, l.stakes[u as int].of(FundType::Active) as int);
            let s1 = l.stakes
                .update(u as int, l.stakes[u as int].moved(FundType::Active, FundType::PendingDeactivation, d))
                .update(0, l.stakes[0].moved(FundType::Active, FundType::PendingDeactivation, d));
            ledger_transformed(LedgerView { stakes: s1, addresses: l.addresses },
                FundType::Active, FundType::PendingDeactivation, amount - d, SweepOrder::Descending)
        },
    }
}

/// The nodes a forced deactivation takes: walking down from id `i`, every
/// active node, until their stake covers `need`.
pub open spec fn force_selection(v: NodesView, i: int, need: int, spn: int) -> Seq<usize>
    decreases i,
{
    if i <= 0 || need <= 0 {
        Seq::empty()
    } else if v.state(i) == NodeState::Active {
        seq![i as usize] + force_selection(v, i - 1, crate::ledger::clip(need - spn), spn)
    } else {
        force_selection(v, i - 1, need, spn)
    }
}

pub proof fn lemma_force_selection_range(v: NodesView, i: int, need: int, spn: int)
    requires
        0 <= i <= usize::MAX,
    ensures
        forall|k: int| 0 <= k < force_selection(v, i, need, spn).len() ==>
            1 <= #[trigger] force_selection(v, i, need, spn)[k] <= i,
    decreases i,
{
    if i > 0 && need > 0 {
        lemma_force_selection_range(v, i - 1, crate::ledger::clip(need - spn), spn);
        lemma_force_selection_range(v, i - 1, need, spn);
        if v.state(i) == NodeState::Active {
            let rest = force_selection(v, i - 1, crate::ledger::clip(need - spn), spn);
            assert forall|k: int| 0 <= k < force_selection(v, i, need, spn).len() implies
                1 <= #[trigger] force_selection(v, i, need, spn)[k] <= i by {
                if k > 0 {
                    assert(force_selection(v, i, need, spn)[k] == rest[k - 1]);
                } else {
                    assert(force_selection(v, i, need, spn)[0] == i as usize);
                }
            }
        } else {
            assert(force_selection(v, i, need, spn) == force_selection(v, i - 1, need, spn));
        }
    }
}

/// The reward distributor with a slot for `address`: unchanged if it is a
/// user of `l`, else with a new slot that has seen every reward so far.
pub open spec fn rewards_with_user(v: RewardsView, l: LedgerView, address: Seq<u8>) -> RewardsView {
    if l.user_id(address) != 0 {
        v
    } else {
        RewardsView {
            users: v.users.push(UserRewardData { reward_checkpoint: v.total_cumulated_rewards as u64, unclaimed_rewards: 0 }),
            ..v
        }
    }
}

/// The offers with a slot for `address`, as `rewards_with_user`.
pub open spec fn offers_with_user(o: Seq<SaleOffer>, l: LedgerView, address: Seq<u8>) -> Seq<SaleOffer> {
    if l.user_id(address) != 0 { o } else { o.push(SaleOffer { amount: 0, time: 0 }) }
}

/// The reward distributor after users `a` and then `b` were brought up to date.
pub open spec fn rewards_settled(v: RewardsView, l: LedgerView, a: int, b: int) -> RewardsView {
    let v1 = RewardsView { users: v.users.update(a, v.updated(l, a)), ..v };
    RewardsView { users: v1.users.update(b, v1.updated(l, b)), ..v1 }
}

/// The stakes after `amount` of active stake, and as much total stake, went
/// from user `seller` to user `buyer`.
pub open spec fn stakes_traded(s: Seq<UserStake>, seller: int, buyer: int, amount: int) -> Seq<UserStake> {
    if seller == buyer {
        s
    } else {
        s.update(seller, debited(s[seller], FundType::Active, amount))
            .update(buyer, credited(s[buyer], FundType::Active, amount))
    }
}

/// Saga closure: when a callback moves its nodes to a state that is not
/// pending and transforms the nodes' stake out of the pending fund type, no
/// node of the saga is left pending and the pending aggregate no longer
/// holds that stake.
pub proof fn lemma_saga_closure(
    v: NodesView,
    ids: Seq<usize>,
    s: NodeState,
    l: LedgerView,
    pending: FundType,
    to: FundType,
    amount: int,
    order: SweepOrder,
)
    requires
        v.wf(),
        l.wf(),
        !crate::types::is_pending(s),
        forall|k: int| 0 <= k < ids.len() ==> 1 <= #[trigger] ids[k] <= v.num_nodes(),
        pending != to,
        0 <= amount <= l.stakes[0].of(pending),
    ensures
        forall|k: int| 0 <= k < ids.len() ==> !crate::types::is_pending(#[trigger] v.with_states(ids, s).state(ids[k] as int)),
        ledger_transformed(l, pending, to, amount, order).stakes[0].of(pending) == l.stakes[0].of(pending) - amount,
        ledger_transformed(l, pending, to, amount, order).wf(),
{
    assert forall|k: int| 0 <= k < ids.len() implies !crate::types::is_pending(#[trigger] v.with_states(ids, s).state(ids[k] as int)) by {
        assert(ids.contains(((ids[k] - 1) + 1) as usize));
    }
    crate::ledger::lemma_transform_conserves(l, pending, to, amount, order);
}

/// What the contract is known to hold: inactive and withdraw-only stake,
/// and rewards received but not yet sent. Payments for stake bought between
/// delegators are forwarded to the seller at once, so none are held.
pub open spec fn expected_balance(l: LedgerView, rw: RewardsView) -> int {
    l.stakes[0].of(FundType::Inactive) + l.stakes[0].of(FundType::WithdrawOnly)
        + rw.total_cumulated_rewards - rw.sent_rewards
}

pub open spec fn clip_to_zero(a: int) -> int {
    if a < 0 { 0 } else { a }
}

impl Delegation {
    /// Stake that `n` nodes require.
    fn stake_for_nodes(&self, n: usize) -> (r: u128)
        ensures
            r == self.stake_of_nodes(n as int),
    {
        proof {
            self.lemma_parts();
            assert((n as int) * (self.stake_per_node as int) <= (usize::MAX as int) * (u64::MAX as int)) by (nonlinear_arith)
                requires n <= usize::MAX, self.stake_per_node <= u64::MAX;
        }
        (n as u128) * (self.stake_per_node as u128)
    }

    /// Moves the nodes in `ids` to state `to_state`, and `amount` of stake
    /// from fund type `from` to `to` in the given order.
    fn move_nodes_and_stake(&mut self, ids: &Vec<usize>, to_state: NodeState, from: FundType, to: FundType, amount: u64, order: SweepOrder)
        requires
            old(self).wf(),
            from != to,
            forall|k: int| 0 <= k < ids@.len() ==> 1 <= #[trigger] ids@[k] <= old(self).nodes_view().num_nodes(),
            amount <= old(self).ledger_view().stakes[0].of(from),
            (from != FundType::Active && to != FundType::Active) || caught_up(old(self).rewards_view()),
        ensures
            final(self).wf(),
            final(self).owner_view() == old(self).owner_view(),
            final(self).stake_per_node_view() == old(self).stake_per_node_view(),
            final(self).grace_period_view() == old(self).grace_period_view(),
            final(self).nodes_view() == old(self).nodes_view().with_states(ids@, to_state),
            final(self).ledger_view() == ledger_transformed(old(self).ledger_view(), from, to, amount as int, order),
            final(self).rewards_view() == old(self).rewards_view(),
            final(self).offers_view() == old(self).offers_view(),
    {
        proof { self.lemma_parts(); }
        let ghost l0 = self.ledger_view();
        self.nodes.set_node_states(ids, to_state);
        let r = self.ledger.transform(from, to, amount, order);
        proof {
            assert(r is Ok);
            if caught_up(self.rewards_view()) {
                crate::solvency::lemma_solvent_caught_up(self.rewards_view(), l0, self.ledger_view());
            } else {
                crate::ledger::lemma_transform_keeps(l0, from, to, amount as int, order, FundType::Active);
                assert forall|j: int| 1 <= j < l0.stakes.len() implies
                    #[trigger] l0.stakes[j].active == self.ledger_view().stakes[j].active
                    || self.rewards_view().users[j].reward_checkpoint == self.rewards_view().total_cumulated_rewards by {
                    assert(transformed(l0.stakes, from, to, amount as int, order)[j].of(FundType::Active) == l0.stakes[j].of(FundType::Active));
                }
                assert(transformed(l0.stakes, from, to, amount as int, order)[0].of(FundType::Active) == l0.stakes[0].of(FundType::Active));
                crate::solvency::lemma_solvent_ledger_change(self.rewards_view(), l0, self.ledger_view());
            }
        }
    }

    /// Brings every user's rewards up to date; solvency makes this succeed,
    /// and afterwards every user is caught up.
    fn catch_up_all(&mut self)
        requires
            old(self).wf(),
        ensures
            final(self).wf(),
            caught_up(final(self).rewards_view()),
            final(self).rewards_view() == old(self).rewards_view().all_updated(old(self).ledger_view()),
            final(self).owner_view() == old(self).owner_view(),
            final(self).stake_per_node_view() == old(self).stake_per_node_view(),
            final(self).grace_period_view() == old(self).grace_period_view(),
            final(self).nodes_view() == old(self).nodes_view(),
            final(self).ledger_view() == old(self).ledger_view(),
            final(self).offers_view() == old(self).offers_view(),
    {
        proof {
            self.lemma_parts();
            crate::solvency::lemma_solvent_all_fit(self.rewards_view(), self.ledger_view());
            crate::solvency::lemma_solvent_compute_all(self.rewards_view(), self.ledger_view());
        }
        let r = self.rewards.compute_all_rewards(&self.ledger);
        proof {
            assert(r is Ok);
        }
    }

    /// Validates a lifecycle callback: every node in `node_ids` must be in
    /// state `pending`, none named twice, and the pending fund type must hold
    /// the stake of those nodes. Yields that stake.
    fn check_callback(&self, node_ids: &Vec<usize>, pending: NodeState, fund: FundType) -> (r: Result<u64, DelegationError>)
        requires
            self.wf(),
        ensures
            !(all_in_state(self.nodes_view(), node_ids@, pending) && distinct(node_ids@))
                ==> r == Err::<u64, DelegationError>(DelegationError::UnexpectedState),
            all_in_state(self.nodes_view(), node_ids@, pending) && distinct(node_ids@)
                && self.stake_of_nodes(node_ids@.len() as int) > self.ledger_view().stakes[0].of(fund)
                ==> r == Err::<u64, DelegationError>(DelegationError::InsufficientFunds),
            all_in_state(self.nodes_view(), node_ids@, pending) && distinct(node_ids@)
                && self.stake_of_nodes(node_ids@.len() as int) <= self.ledger_view().stakes[0].of(fund)
                ==> r == Ok::<u64, DelegationError>(self.stake_of_nodes(node_ids@.len() as int) as u64),
    {
        proof { self.lemma_parts(); }
        if !self.nodes.check_nodes(node_ids, pending) {
            return Err(DelegationError::UnexpectedState);
        }
        let amount = self.stake_for_nodes(node_ids.len());
        if amount > self.ledger.get_user_stake_of_type(USER_STAKE_TOTALS_ID, fund) as u128 {
            return Err(DelegationError::InsufficientFunds);
        }
        Ok(amount as u64)
    }

    /// Resolves the keys of a lifecycle request: every node must be in state
    /// `expected`, none named twice, and fund type `fund` must hold the
    /// stake of those nodes. Yields the node ids and that stake.
    fn check_request(&self, bls_keys: &Vec<Vec<u8>>, expected: NodeState, fund: FundType) -> (r: Result<(Vec<usize>, u64), DelegationError>)
        requires
            self.wf(),
        ensures
            ({
                let ids = ids_of(self.nodes_view(), key_views(bls_keys@));
                let valid = all_in_state(self.nodes_view(), ids, expected) && distinct(ids);
                &&& !valid ==> r == Err::<(Vec<usize>, u64), DelegationError>(DelegationError::UnexpectedState)
                &&& valid && self.stake_of_nodes(ids.len() as int) > self.ledger_view().stakes[0].of(fund)
                    ==> r == Err::<(Vec<usize>, u64), DelegationError>(DelegationError::InsufficientFunds)
                &&& valid && self.stake_of_nodes(ids.len() as int) <= self.ledger_view().stakes[0].of(fund)
                    ==> r is Ok
                &&& r matches Ok(p) ==> p.0@ == ids && p.1 == self.stake_of_nodes(ids.len() as int)
            }),
    {
        proof { self.lemma_parts(); }
        let ids = self.nodes.resolve_nodes(bls_keys, expected)?;
        let amount = self.stake_for_nodes(ids.len());
        if amount > self.ledger.get_user_stake_of_type(USER_STAKE_TOTALS_ID, fund) as u128 {
            return Err(DelegationError::InsufficientFunds);
        }
        Ok((ids, amount as u64))
    }

    /// Deactivates the active nodes `node_ids` and `amount` of active stake:
    /// rewards are brought up to date first, the nodes become pending
    /// deactivation, and the stake moves to pending deactivation, taken from
    /// the requester first when there is one, then newest users first.
    fn perform_deactivate_nodes(&mut self, requester: Option<usize>, node_ids: &Vec<usize>, amount: u64)
        requires
            old(self).wf(),
            forall|k: int| 0 <= k < node_ids@.len() ==> 1 <= #[trigger] node_ids@[k] <= old(self).nodes_view().num_nodes(),
            amount <= old(self).ledger_view().stakes[0].of(FundType::Active),
            requester matches Some(u) ==> 1 <= u < old(self).ledger_view().stakes.len(),
        ensures
            final(self).wf(),
            rewards_monotone(old(self).rewards_view(), final(self).rewards_view()),
            final(self).owner_view() == old(self).owner_view(),
            final(self).stake_per_node_view() == old(self).stake_per_node_view(),
            final(self).grace_period_view() == old(self).grace_period_view(),
            final(self).offers_view() == old(self).offers_view(),
            final(self).rewards_view() == old(self).rewards_view().all_updated(old(self).ledger_view())
                && final(self).nodes_view() == old(self).nodes_view().with_states(node_ids@, NodeState::PendingDeactivation)
                && final(self).ledger_view() == ledger_deactivated(old(self).ledger_view(), requester, amount as int),
    {
        self.catch_up_all();
        proof { self.lemma_parts(); }
        let ghost rv = self.rewards_view();
        let ghost l1 = self.ledger_view();
        self.nodes.set_node_states(node_ids, NodeState::PendingDeactivation);
        let mut remaining = amount;
        let ghost l0 = self.ledger@;
        match requester {
            Some(u) => {
                remaining = self.ledger.transform_user_stake(u, FundType::Active, FundType::PendingDeactivation, amount);
                proof {
                    crate::ledger::lemma_moved_diff(l0.stakes[0], FundType::Active, FundType::PendingDeactivation,
                        (amount - remaining) as int);
                }
            },
            None => {},
        }
        let r = self.ledger.transform_user_stake_desc(FundType::Active, FundType::PendingDeactivation, remaining);
        proof {
            assert(r is Ok);
            crate::solvency::lemma_solvent_caught_up(rv, l1, self.ledger_view());
        }
    }

    /// Owner-only registration of validator nodes (see `NodeRegistry::add_nodes`).
    pub fn add_nodes(&mut self, caller: &Vec<u8>, bls_keys_signatures: &Vec<(Vec<u8>, Vec<u8>)>) -> (r: Result<(), DelegationError>)
        requires
            old(self).wf(),
        ensures
            final(self).wf(),
            caller@ != old(self).owner_view() ==> r == Err::<(), DelegationError>(DelegationError::NotOwner)
                && same_parts(*final(self), *old(self)),
            caller@ == old(self).owner_view() ==> {
                let pv = pair_views(bls_keys_signatures@);
                let malformed = exists|k: int| 0 <= k < pv.len() && !well_sized(#[trigger] pv[k]);
                let taken = (exists|k: int| 0 <= k < pv.len() && old(self).nodes_view().node_id(#[trigger] pv[k].0) != 0
                        && old(self).nodes_view().state(old(self).nodes_view().node_id(pv[k].0)) != NodeState::Removed)
                    || (exists|a: int, b: int| 0 <= a < b < pv.len() && #[trigger] pv[a].0 == #[trigger] pv[b].0);
                &&& malformed ==> r == Err::<(), DelegationError>(DelegationError::MalformedInput)
                &&& !malformed && taken ==> r == Err::<(), DelegationError>(DelegationError::AlreadyRegistered)
                &&& !malformed && !taken ==> r is Ok
                &&& r is Ok ==> final(self).nodes_view() == crate::nodes::add_all(old(self).nodes_view(), pv, pv.len() as int)
                &&& r is Err ==> final(self).nodes_view() == old(self).nodes_view()
            },
            final(self).ledger_view() == old(self).ledger_view(),
            final(self).rewards_view() == old(self).rewards_view(),
            final(self).offers_view() == old(self).offers_view(),
            final(self).owner_view() == old(self).owner_view(),
            final(self).stake_per_node_view() == old(self).stake_per_node_view(),
            final(self).grace_period_view() == old(self).grace_period_view(),
    {
        if !self.is_owner(caller) {
            return Err(DelegationError::NotOwner);
        }
        self.nodes.add_nodes(bls_keys_signatures)
    }

    /// Owner-only removal of inactive nodes (see `NodeRegistry::remove_nodes`).
    pub fn remove_nodes(&mut self, caller: &Vec<u8>, bls_keys: &Vec<Vec<u8>>) -> (r: Result<(), DelegationError>)
        requires
            old(self).wf(),
        ensures
            final(self).wf(),
            caller@ != old(self).owner_view() ==> r == Err::<(), DelegationError>(DelegationError::NotOwner)
                && same_parts(*final(self), *old(self)),
            caller@ == old(self).owner_view() ==> {
                let ids = ids_of(old(self).nodes_view(), key_views(bls_keys@));
                &&& (exists|k: int| 0 <= k < ids.len() && #[trigger] ids[k] == 0)
                    ==> r == Err::<(), DelegationError>(DelegationError::NotRegistered)
                &&& !(exists|k: int| 0 <= k < ids.len() && #[trigger] ids[k] == 0)
                    && !(all_in_state(old(self).nodes_view(), ids, NodeState::Inactive) && distinct(ids))
                    ==> r == Err::<(), DelegationError>(DelegationError::NotRemovable)
                &&& r is Ok <==> all_in_state(old(self).nodes_view(), ids, NodeState::Inactive) && distinct(ids)
                &&& r is Ok ==> final(self).nodes_view() == old(self).nodes_view().with_states(ids, NodeState::Removed)
                &&& r is Err ==> final(self).nodes_view() == old(self).nodes_view()
            },
            final(self).ledger_view() == old(self).ledger_view(),
            final(self).rewards_view() == old(self).rewards_view(),
            final(self).offers_view() == old(self).offers_view(),
            final(self).owner_view() == old(self).owner_view(),
            final(self).stake_per_node_view() == old(self).stake_per_node_view(),
            final(self).grace_period_view() == old(self).grace_period_view(),
    {
        if !self.is_owner(caller) {
            return Err(DelegationError::NotOwner);
        }
        self.nodes.remove_nodes(bls_keys)
    }

    /// Nodes a forced deactivation of `need` takes (see `force_selection`).
    fn select_nodes_to_unstake(&self, need: u64) -> (r: Vec<usize>)
        requires
            self.wf(),
        ensures
            r@ == force_selection(self.nodes_view(), self.nodes_view().num_nodes(), need as int, self.stake_per_node_view()),
            forall|k: int| 0 <= k < r@.len() ==> 1 <= #[trigger] r@[k] <= self.nodes_view().num_nodes(),
    {
        proof { self.lemma_parts(); }
        let ghost v = self.nodes_view();
        let ghost spn = self.stake_per_node_view();
        let n = self.nodes.get_num_nodes();
        let mut ids: Vec<usize> = Vec::new();
        let mut i: usize = n;
        let mut rest = need;
        while i > 0 && rest > 0
            invariant
                self.wf(),
                v == self.nodes_view(),
                spn == self.stake_per_node_view(),
                n == v.num_nodes(),
                i <= n,
                ids@ + force_selection(v, i as int, rest as int, spn) == force_selection(v, n as int, need as int, spn),
            decreases i,
        {
            let ghost before = ids@;
            let st = self.nodes.get_node_state(i);
            if st == NodeState::Active {
                ids.push(i);
                proof {
                    assert(force_selection(v, i as int, rest as int, spn)
                        == seq![i] + force_selection(v, i - 1, crate::ledger::clip(rest - spn), spn));
                    assert(ids@ + force_selection(v, i - 1, crate::ledger::clip(rest - spn), spn)
                        =~= before + (seq![i] + force_selection(v, i - 1, crate::ledger::clip(rest - spn), spn)));
                }
                rest = if rest > self.stake_per_node { rest - self.stake_per_node } else { 0 };
            }
            i = i - 1;
        }
        proof {
            assert(force_selection(v, i as int, rest as int, spn) =~= Seq::<usize>::empty());
            assert(ids@ =~= ids@ + Seq::<usize>::empty());
            lemma_force_selection_range(v, n as int, need as int, spn);
        }
        ids
    }
}
} // verus!
