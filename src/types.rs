use vstd::prelude::*;

verus! {
/// Fixed-point denominator of the service fee: percents with two decimals.
pub const PERCENTAGE_DENOMINATOR: u64 = 10000;

/// Byte length of a validator's BLS public key.
pub const BLS_KEY_BYTE_LENGTH: usize = 96;

/// Byte length of a BLS signature.
pub const BLS_SIGNATURE_BYTE_LENGTH: usize = 48;

/// Most node ids that one report of the staking authority is split over.
pub const MAX_NODES_PER_OPERATION: usize = 100;

/// Id of the pseudo-user whose balances aggregate all users per fund type.
pub const USER_STAKE_TOTALS_ID: usize = 0;

/// Id of the contract owner, who is the first registered user and the
/// recipient of the service fee.
pub const OWNER_USER_ID: usize = 1;

/// Lifecycle state of a validator node.
#[derive(Clone, Copy, Debug, PartialEq, Eq, Structural)]
pub enum NodeState {
    Inactive,
    PendingActivation,
    Active,
    PendingDeactivation,
    UnBondPeriod,
    PendingUnBond,
    Removed,
}

impl NodeState {
    /// The small integer under which the state is reported to clients.
    pub fn discriminant(&self) -> (r: u8)
        ensures
            r == node_state_code(*self),
    {
        match self {
            NodeState::Inactive => 0,
            NodeState::PendingActivation => 1,
            NodeState::Active => 2,
            NodeState::PendingDeactivation => 3,
            NodeState::UnBondPeriod => 4,
            NodeState::PendingUnBond => 5,
            NodeState::Removed => 6,
        }
    }
}

pub open spec fn node_state_code(s: NodeState) -> u8 {
    match s {
        NodeState::Inactive => 0,
        NodeState::PendingActivation => 1,
        NodeState::Active => 2,
        NodeState::PendingDeactivation => 3,
        NodeState::UnBondPeriod => 4,
        NodeState::PendingUnBond => 5,
        NodeState::Removed => 6,
    }
}

/// True of the states in which a node waits for the staking authority's answer.
pub open spec fn is_pending(s: NodeState) -> bool {
    s == NodeState::PendingActivation || s == NodeState::PendingDeactivation
        || s == NodeState::PendingUnBond
}

/// The lifecycle phase a unit of delegated stake is in.
#[derive(Clone, Copy, Debug, PartialEq, Eq, Structural)]
pub enum FundType {
    Inactive,
    PendingActivation,
    Active,
    PendingDeactivation,
    UnBondPeriod,
    PendingUnBond,
    WithdrawOnly,
    StakeForSale,
}

/// Order in which an ordered transform visits the delegators.
#[derive(Clone, Copy, Debug, PartialEq, Eq, Structural)]
pub enum SweepOrder {
    /// Lowest user id first.
    Ascending,
    /// Highest user id first.
    Descending,
}

/// Why an operation was refused.
#[derive(Clone, Copy, Debug, PartialEq, Eq, Structural)]
pub enum DelegationError {
    /// The caller is not the contract owner.
    NotOwner,
    /// The caller or the named address is not a delegator.
    UnknownCaller,
    /// A node key is registered already and not removed.
    AlreadyRegistered,
    /// A node key is not registered.
    NotRegistered,
    /// Only inactive nodes can be removed.
    NotRemovable,
    /// A node or fund is not in the state the operation requires.
    UnexpectedState,
    /// The source fund type does not hold enough stake.
    InsufficientFunds,
    /// Wrong-length key or signature, or mismatched counts.
    MalformedInput,
    /// Claims are paused while a global checkpoint reset runs.
    CheckpointingInProgress,
    /// The caller has no live stake-for-sale offer.
    NoStakeForSale,
    /// The stake-for-sale offer has not yet outlived the grace period.
    TooSoon,
    /// A payment is larger than the stake offered or held by the seller.
    PaymentExceedsOffer,
    /// A paid-out amount would exceed the rewards ever received.
    RewardsExhausted,
    /// An amount would leave the range of 64-bit unsigned integers.
    Overflow,
}
} // verus!
