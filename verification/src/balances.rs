//! The lockable currency in which contributions are made: each account has a
//! free balance and the amount that the money pot lock holds of it.

use vstd::prelude::*;
use crate::assoc::AssocList;
use crate::types::{AccountId, Balance, BalancesError};

verus! {

/// What the currency holds for an account.
#[derive(Clone, Copy, Debug, PartialEq, Eq)]
pub struct AccountData {
    /// The free balance
    pub free: Balance,
    /// The amount that the money pot lock keeps from being transferred
    pub lock: Balance,
}

/// The accounts of a ledger, as a map.
pub type Ledger = Map<AccountId, AccountData>;

/// The data of `who`: zero where the ledger has no entry.
pub open spec fn account(l: Ledger, who: AccountId) -> AccountData {
    if l.dom().contains(who) {
        l[who]
    } else {
        AccountData { free: 0, lock: 0 }
    }
}

/// The free balance of `who`.
pub open spec fn free_of(l: Ledger, who: AccountId) -> Balance {
    account(l, who).free
}

/// The free balance of `who` that no lock holds.
pub open spec fn usable_of(l: Ledger, who: AccountId) -> Balance {
    let a = account(l, who);
    if a.free >= a.lock { (a.free - a.lock) as Balance } else { 0 }
}

/// Sets the free balance of `who`; below the existential deposit the account is emptied.
pub open spec fn spec_set_balance(l: Ledger, ed: Balance, who: AccountId, new_free: Balance) -> Ledger {
    l.insert(who, AccountData { free: if new_free < ed { 0 } else { new_free }, ..account(l, who) })
}

/// Sets the lock of `who` to `amount`; a zero amount leaves the ledger as it is.
pub open spec fn spec_set_lock(l: Ledger, who: AccountId, amount: Balance) -> Ledger {
    if amount == 0 {
        l
    } else {
        l.insert(who, AccountData { lock: amount, ..account(l, who) })
    }
}

/// Removes the lock of `who`.
pub open spec fn spec_remove_lock(l: Ledger, who: AccountId) -> Ledger {
    l.insert(who, AccountData { lock: 0, ..account(l, who) })
}

/// A transfer of `value` from `from` to `to` that keeps `from` alive.
pub open spec fn spec_transfer(
    l: Ledger,
    ed: Balance,
    from: AccountId,
    to: AccountId,
    value: Balance,
) -> Result<Ledger, BalancesError> {
    if value == 0 || from == to {
        Ok(l)
    } else {
        let f = account(l, from);
        let t = account(l, to);
        if f.free < value {
            Err(BalancesError::InsufficientBalance)
        } else if t.free + value > u64::MAX {
            Err(BalancesError::Overflow)
        } else if t.free + value < ed {
            Err(BalancesError::ExistentialDeposit)
        } else if f.free - value < f.lock {
            Err(BalancesError::LiquidityRestrictions)
        } else if f.free - value < ed {
            Err(BalancesError::KeepAlive)
        } else {
            Ok(
                l.insert(from, AccountData { free: (f.free - value) as Balance, ..f }).insert(
                    to,
                    AccountData { free: (t.free + value) as Balance, ..t },
                ),
            )
        }
    }
}

/// A ledger of lockable balances with an existential deposit.
#[derive(Clone, Debug, PartialEq, Eq)]
pub struct Balances {
    accounts: AssocList<AccountId, AccountData>,
    existential_deposit: Balance,
}

impl View for Balances {
    type V = Ledger;

    closed spec fn view(&self) -> Ledger {
        self.accounts@
    }
}

impl Balances {
    pub closed spec fn wf(&self) -> bool {
        self.accounts.wf()
    }

    /// The least balance that an account may keep.
    pub closed spec fn ed(&self) -> Balance {
        self.existential_deposit
    }

    /// An empty ledger.
    pub fn new(existential_deposit: Balance) -> (r: Balances)
        ensures
            r.wf(),
            r@ == Map::<AccountId, AccountData>::empty(),
            r.ed() == existential_deposit,
    {
        Balances { accounts: AssocList::new(), existential_deposit }
    }

    pub fn existential_deposit(&self) -> (r: Balance)
        ensures
            r == self.ed(),
    {
        self.existential_deposit
    }

    /// The data of `who`.
    pub fn account(&self, who: AccountId) -> (r: AccountData)
        requires
            self.wf(),
        ensures
            r == account(self@, who),
    {
        match self.accounts.get(&who) {
            Some(a) => *a,
            None => AccountData { free: 0, lock: 0 },
        }
    }

    pub fn free_balance(&self, who: AccountId) -> (r: Balance)
        requires
            self.wf(),
        ensures
            r == free_of(self@, who),
    {
        self.account(who).free
    }

    pub fn usable_balance(&self, who: AccountId) -> (r: Balance)
        requires
            self.wf(),
        ensures
            r == usable_of(self@, who),
    {
        let a = self.account(who);
        if a.free >= a.lock {
            a.free - a.lock
        } else {
            0
        }
    }

    pub fn set_balance(&mut self, who: AccountId, new_free: Balance)
        requires
            old(self).wf(),
        ensures
            final(self).wf(),
            final(self).ed() == old(self).ed(),
            final(self)@ == spec_set_balance(old(self)@, old(self).ed(), who, new_free),
    {
        let a = self.account(who);
        let free = if new_free < self.existential_deposit { 0 } else { new_free };
        self.accounts.insert(who, AccountData { free, ..a });
    }

    pub fn set_lock(&mut self, who: AccountId, amount: Balance)
        requires
            old(self).wf(),
        ensures
            final(self).wf(),
            final(self).ed() == old(self).ed(),
            final(self)@ == spec_set_lock(old(self)@, who, amount),
    {
        if amount != 0 {
            let a = self.account(who);
            self.accounts.insert(who, AccountData { lock: amount, ..a });
        }
    }

    pub fn remove_lock(&mut self, who: AccountId)
        requires
            old(self).wf(),
        ensures
            final(self).wf(),
            final(self).ed() == old(self).ed(),
            final(self)@ == spec_remove_lock(old(self)@, who),
    {
        let a = self.account(who);
        self.accounts.insert(who, AccountData { lock: 0, ..a });
    }

    /// Transfers `value` from `from` to `to`, keeping `from` alive; on an error nothing changes.
    pub fn transfer(&mut self, from: AccountId, to: AccountId, value: Balance) -> (r: Result<(), BalancesError>)
        requires
            old(self).wf(),
        ensures
            final(self).wf(),
            final(self).ed() == old(self).ed(),
            match spec_transfer(old(self)@, old(self).ed(), from, to, value) {
                Ok(l) => r is Ok && final(self)@ == l,
                Err(e) => r == Err::<(), BalancesError>(e) && final(self)@ == old(self)@,
            },
    {
        if value == 0 || from == to {
            return Ok(());
        }
        let f = self.account(from);
        let t = self.account(to);
        if f.free < value {
            return Err(BalancesError::InsufficientBalance);
        }
        if t.free > u64::MAX - value {
            return Err(BalancesError::Overflow);
        }
        if t.free + value < self.existential_deposit {
            return Err(BalancesError::ExistentialDeposit);
        }
        if f.free - value < f.lock {
            return Err(BalancesError::LiquidityRestrictions);
        }
        if f.free - value < self.existential_deposit {
            return Err(BalancesError::KeepAlive);
        }
        self.accounts.insert(from, AccountData { free: f.free - value, ..f });
        self.accounts.insert(to, AccountData { free: t.free + value, ..t });
        Ok(())
    }

    /// A copy of the ledger.
    pub fn copy(&self) -> (r: Balances)
        requires
            self.wf(),
        ensures
            r.wf(),
            r@ == self@,
            r.ed() == self.ed(),
    {
        Balances { accounts: self.accounts.copy(), existential_deposit: self.existential_deposit }
    }
}

} // verus!
