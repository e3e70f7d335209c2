use vstd::prelude::*;
use crate::types::{DelegationError, FundType};
use crate::ledger::FundLedger;

verus! {
/// A delegator's standing offer to sell active stake.
#[derive(Clone, Copy, Debug, PartialEq, Eq, Structural)]
pub struct SaleOffer {
    pub amount: u64,
    /// Block timestamp at which the offer was made.
    pub time: u64,
}

/// Offers of active stake for sale between delegators, one slot per user id
/// (slot 0 belongs to the totals pseudo-user and stays empty).
pub struct SaleOffers {
    offers: Vec<SaleOffer>,
}

impl View for SaleOffers {
    type V = Seq<SaleOffer>;

    closed spec fn view(&self) -> Seq<SaleOffer> {
        self.offers@
    }
}

impl SaleOffers {
    /// `num_entries` empty slots.
    pub fn new(num_entries: usize) -> (r: SaleOffers)
        ensures
            r@.len() == num_entries,
            forall|i: int| 0 <= i < num_entries ==> #[trigger] r@[i] == (SaleOffer { amount: 0, time: 0 }),
    {
        let mut offers: Vec<SaleOffer> = Vec::new();
        let mut i: usize = 0;
        while i < num_entries
            invariant
                i <= num_entries,
                offers@.len() == i,
                forall|j: int| 0 <= j < i ==> #[trigger] offers@[j] == (SaleOffer { amount: 0, time: 0 }),
            decreases num_entries - i,
        {
            offers.push(SaleOffer { amount: 0, time: 0 });
            i = i + 1;
        }
        SaleOffers { offers }
    }

    /// Adds an empty slot for a new user.
    pub fn add_user(&mut self)
        ensures
            final(self)@ == old(self)@.push(SaleOffer { amount: 0, time: 0 }),
    {
        self.offers.push(SaleOffer { amount: 0, time: 0 });
    }

    /// The offer of user `user_id`.
    pub fn get_offer(&self, user_id: usize) -> (r: SaleOffer)
        requires
            user_id < self@.len(),
        ensures
            r == self@[user_id as int],
    {
        self.offers[user_id]
    }

    /// Shrinks the offer of user `user_id` by `payment`.
    pub fn reduce_offer(&mut self, user_id: usize, payment: u64)
        requires
            user_id < old(self)@.len(),
            payment <= old(self)@[user_id as int].amount,
        ensures
            final(self)@ == old(self)@.update(user_id as int, SaleOffer {
                amount: (old(self)@[user_id as int].amount - payment) as u64,
                time: old(self)@[user_id as int].time,
            }),
    {
        let o = self.offers[user_id];
        self.offers.set(user_id, SaleOffer { amount: o.amount - payment, time: o.time });
    }

    /// Records `caller`'s offer to sell `amount` of its active stake at time
    /// `now`, replacing any earlier offer. Fails, changing nothing, with
    /// `UnknownCaller` if `caller` is no user, or `InsufficientFunds` if it
    /// holds less active stake.
    pub fn offer_stake_for_sale(&mut self, ledger: &FundLedger, caller: &Vec<u8>, amount: u64, now: u64) -> (r: Result<(), DelegationError>)
        requires
            ledger.wf(),
            old(self)@.len() == ledger@.stakes.len(),
        ensures
            ledger@.user_id(caller@) == 0 ==> r == Err::<(), DelegationError>(DelegationError::UnknownCaller),
            ledger@.user_id(caller@) != 0 ==> {
                let id = ledger@.user_id(caller@);
                &&& amount > ledger@.stake_of(id, FundType::Active)
                    ==> r == Err::<(), DelegationError>(DelegationError::InsufficientFunds)
                &&& amount <= ledger@.stake_of(id, FundType::Active)
                    ==> r is Ok && final(self)@ == old(self)@.update(id, SaleOffer { amount, time: now })
            },
            r is Err ==> final(self)@ == old(self)@,
    {
        let id = ledger.get_user_id(caller);
        if id == 0 {
            return Err(DelegationError::UnknownCaller);
        }
        if amount > ledger.get_user_stake_of_type(id, FundType::Active) {
            return Err(DelegationError::InsufficientFunds);
        }
        self.offers.set(id, SaleOffer { amount, time: now });
        Ok(())
    }

    /// Stake that `address` offers for sale (0 when it is no user).
    pub fn get_stake_for_sale(&self, ledger: &FundLedger, address: &Vec<u8>) -> (r: u64)
        requires
            ledger.wf(),
            self@.len() == ledger@.stakes.len(),
        ensures
            ledger@.user_id(address@) == 0 ==> r == 0,
            ledger@.user_id(address@) != 0 ==> r == self@[ledger@.user_id(address@)].amount,
    {
        let id = ledger.get_user_id(address);
        if id == 0 {
            return 0;
        }
        self.offers[id].amount
    }
}
} // verus!
