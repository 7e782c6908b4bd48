//! The genesis configuration of the pallet.

use vstd::prelude::*;
use crate::pallet::Pallet;
use crate::types::{AccountId, Balance, MoneyPot};

verus! {

/// Pots listed for the genesis block: (owner, receiver, target amount).
#[derive(Clone, Debug, PartialEq, Eq)]
pub struct GenesisConfig {
    pub money_pot: Vec<(AccountId, AccountId, Balance)>,
}

impl Default for GenesisConfig {
    fn default() -> (r: GenesisConfig)
        ensures
            r.money_pot@ == Seq::<(AccountId, AccountId, Balance)>::empty(),
    {
        GenesisConfig { money_pot: Vec::new() }
    }
}

impl GenesisConfig {
    /// Builds each listed pot as a value on the current block; none of them
    /// is stored, so the pallet's state is left as it is.
    pub fn build(&self, pallet: &mut Pallet)
        requires
            old(pallet).wf(),
        ensures
            final(pallet).wf(),
            final(pallet).state() == old(pallet).state(),
    {
        let n = self.money_pot.len();
        for i in 0..n
            invariant
                n == self.money_pot@.len(),
        {
            let (sender, receiver, amount) = self.money_pot[i];
            let mut pot = MoneyPot::create(&sender, &receiver, pallet.block_number());
            pot.with_native_currency_limit(amount);
        }
    }
}

} // verus!
