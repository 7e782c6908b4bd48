//! The values that the pallet stores, receives and reports.

use vstd::prelude::*;
use crate::assoc::Key;

verus! {

/// An account.
pub type AccountId = u64;

/// An amount of the native currency.
pub type Balance = u64;

/// A block number.
pub type BlockNumber = u64;

/// The incremental index under which each created pot is also recorded.
pub type MoneyPotIndex = u32;

/// The 256-bit hash that identifies a money pot.
#[derive(Clone, Copy, Debug, PartialEq, Eq)]
pub struct PotHash(pub [u8; 32]);

impl Key for PotHash {
    fn key_eq(&self, other: &Self) -> (r: bool) {
        let mut i: usize = 0;
        while i < 32
            invariant
                0 <= i <= 32,
                forall|j: int| 0 <= j < i ==> self.0@[j] == other.0@[j],
            decreases 32 - i,
        {
            if self.0[i] != other.0[i] {
                return false;
            }
            i = i + 1;
        }
        proof {
            assert(self.0 =~= other.0);
        }
        true
    }
}

/// The currency of an amount target (only the native one is used).
#[derive(Clone, Copy, Debug, PartialEq, Eq)]
pub enum AmountType {
    Native,
    DOT,
    USD,
}

/// How a money pot ends.
#[derive(Clone, Copy, Debug, PartialEq, Eq)]
pub enum EndType {
    /// The pot pays out on this block.
    Time(BlockNumber),
    /// The pot pays out as soon as its contributions reach `amount`.
    AmountReached { amount_type: AmountType, amount: Balance },
}

/// A money pot.
#[derive(Clone, Copy, Debug, PartialEq, Eq)]
pub struct MoneyPot {
    /// Creator
    pub owner: AccountId,
    /// Account that receives the funds
    pub receiver: AccountId,
    /// Block on which the pot was created
    pub start_time: BlockNumber,
    /// When the pot ends and its funds go to the receiver
    pub end_time: Option<EndType>,
    /// Whether the pot still accepts contributions
    pub is_active: bool,
}

impl MoneyPot {
    /// A new active pot of `owner` for `receiver`, started on `start_time`, with no end yet.
    pub fn create(owner: &AccountId, receiver: &AccountId, start_time: BlockNumber) -> (r: MoneyPot)
        ensures
            r == (MoneyPot {
                owner: *owner,
                receiver: *receiver,
                start_time,
                end_time: None,
                is_active: true,
            }),
    {
        MoneyPot { owner: *owner, receiver: *receiver, start_time, end_time: None, is_active: true }
    }

    /// Sets the end to the moment the contributions reach `amount` of the native currency.
    pub fn with_native_currency_limit(&mut self, amount: Balance)
        ensures
            *final(self) == (MoneyPot {
                end_time: Some(EndType::AmountReached { amount_type: AmountType::Native, amount }),
                ..*old(self)
            }),
    {
        self.end_time = Some(EndType::AmountReached { amount_type: AmountType::Native, amount });
    }

    /// Sets the end to block `end_time`.
    pub fn with_end_block(&mut self, end_time: BlockNumber)
        ensures
            *final(self) == (MoneyPot { end_time: Some(EndType::Time(end_time)), ..*old(self) }),
    {
        self.end_time = Some(EndType::Time(end_time));
    }

    /// Closes the pot.
    pub fn close(&mut self)
        ensures
            *final(self) == (MoneyPot { is_active: false, ..*old(self) }),
    {
        self.is_active = false;
    }
}

/// What the pallet reports.
#[derive(Clone, Copy, Debug, PartialEq, Eq)]
pub enum Event {
    /// A money pot has been created
    Created { ref_hash: PotHash },
    /// The money has been transferred to the receiver
    Transfered { ref_hash: PotHash },
    /// Money has been added
    MoneyAdded { ref_hash: PotHash, who: AccountId, amount: Balance },
    /// A money pot has been closed
    Closed { ref_hash: PotHash },
}

/// The errors of the pallet.
#[derive(Clone, Copy, Debug, PartialEq, Eq)]
pub enum Error {
    /// The account has already opened `max_money_pot_currently_open` pots
    MaxOpenOverflow,
    /// The pot has no end
    NoEndTimeSpecified,
    /// No one added money
    HasNoMoney,
    /// The pot's lifetime is too long
    LifetimeOverflow,
    /// The pot's lifetime is in the past
    LifetimeIsTooLow,
    /// The money pot does not exist
    DoesNotExists,
    /// The money pot already exists
    AlreadyExists,
    /// The contribution is too high for the contributor's funds
    NotEnoughBalance,
    /// The pot has too many contributors
    MaxMoneyPotContributors,
    /// A transfer failed
    TransferFailed,
    /// The amount is not a multiple of the contribution step
    InvalidAmountStep,
    /// The amount is too low
    AmountToLow,
    /// The pot is closed
    MoneyPotIsClose,
    /// The end block cannot be scheduled
    ScheduleError,
}

/// The errors of the currency.
#[derive(Clone, Copy, Debug, PartialEq, Eq)]
pub enum BalancesError {
    /// The sender has less free balance than the amount
    InsufficientBalance,
    /// The receiver's balance would overflow
    Overflow,
    /// The receiver would hold less than the existential deposit
    ExistentialDeposit,
    /// A lock forbids the withdrawal
    LiquidityRestrictions,
    /// The sender would hold less than the existential deposit
    KeepAlive,
}

/// Why a dispatched call failed.
#[derive(Clone, Copy, Debug, PartialEq, Eq)]
pub enum DispatchError {
    /// The call came from an origin that it does not accept
    BadOrigin,
    /// An error of the money pot pallet
    Module(Error),
    /// An error of the currency
    Balances(BalancesError),
}

/// Who dispatches a call.
#[derive(Clone, Copy, Debug, PartialEq, Eq)]
pub enum Origin {
    /// The root (privileged) origin
    Root,
    /// A signed extrinsic of this account
    Signed(AccountId),
    /// An unsigned extrinsic
    Unsigned,
}

impl Origin {
    pub fn signed(who: AccountId) -> (r: Origin)
        ensures
            r == Origin::Signed(who),
    {
        Origin::Signed(who)
    }

    pub fn root() -> (r: Origin)
        ensures
            r == Origin::Root,
    {
        Origin::Root
    }
}

/// The constants with which the pallet is set up.
#[derive(Clone, Copy, Debug, PartialEq, Eq)]
pub struct Config {
    /// The most pots an account may open
    pub max_money_pot_currently_open: u32,
    /// The most contributors of a pot
    pub max_money_pot_contributors: u32,
    /// The least amount accepted for a contribution and for a target
    pub min_contribution: Balance,
    /// Every contribution is a multiple of this step
    pub step_contribution: Balance,
    /// The least balance that keeps an account alive, as the runtime sets it;
    /// the pallet's own checks do not read it (a contribution checks only the
    /// free balance), and the currency (`Balances`) holds its own copy
    pub existential_deposit: Balance,
    /// The latest end block of a pot, counted from its creation block
    pub max_block_number_end_time: u32,
}

/// `x` as a `u32`, or `u32::MAX` where it is larger.
pub open spec fn saturated_u32(x: u64) -> u32 {
    if x > u32::MAX { u32::MAX } else { x as u32 }
}

/// `x` as a `u32`, or `u32::MAX` where it is larger.
pub fn saturated_into_u32(x: u64) -> (r: u32)
    ensures
        r == saturated_u32(x),
{
    if x > u32::MAX as u64 {
        u32::MAX
    } else {
        x as u32
    }
}

} // verus!
