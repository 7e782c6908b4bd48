//! A money pot: accounts open pots for a receiver, anyone contributes locked
//! funds, and the pot pays out either when its target amount is reached or
//! when its end block comes.

pub mod assoc;
pub mod types;
pub mod scale;
pub mod balances;
pub mod scheduler;
pub mod state;
pub mod pallet;
pub mod genesis;
pub mod laws;

pub use assoc::AssocList;
pub use balances::{AccountData, Balances};
pub use genesis::GenesisConfig;
pub use pallet::Pallet;
pub use scale::{encode_money_pot, encode_schedule_name, money_pot_hash, ID_LOCK_MONEY_POT};
pub use scheduler::{Agenda, ScheduledTask, SchedulerError};
pub use types::{
    AccountId, AmountType, Balance, BalancesError, BlockNumber, Config, DispatchError, EndType,
    Error, Event, MoneyPot, MoneyPotIndex, Origin, PotHash,
};
