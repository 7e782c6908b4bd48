//! The money pot pallet: its storage, its calls and its hooks.

use vstd::prelude::*;
use crate::assoc::{copy_vec, AssocList};
use crate::laws::{
    consistent, law_add_balance_keeps, law_create_with_limit_amount_keeps,
    law_create_with_limit_block_keeps, law_transfer_contributions_keeps, lemma_control_creation_keeps,
    lemma_not_due_keeps, lemma_same_owned_keeps,
};
use crate::balances::{free_of, usable_of, Balances};
use crate::scale::{encode_schedule_name, hash_of, money_pot_hash};
use crate::scheduler::Agenda;
use crate::state::{
    active_count, add_balance_panics, add_contribution, contributions_of, covered, first_index,
    lemma_first_index_bounds, lemma_first_index_prefix, lemma_pay_all_err_prefix,
    lemma_run_calls_prefix, lemma_sum_amounts_prefix, lemma_take_succ, lemma_release_all_free,
    may_open, owned_of, pay_all, run_calls, spec_add_balance, spec_control_creation,
    spec_create_with_limit_amount, spec_create_with_limit_block, spec_need_transfer,
    spec_on_initialize, spec_settle, spec_transfer_contributions, sum_amounts, release_all, spec_add_lock, spec_lock_balance, first_uncovered_at, pay_until,
    lemma_pay_until_err_prefix, spec_settle_in_place, spec_transfer_contributions_in_place, spec_release_lock, State,
};
use crate::types::{
    saturated_into_u32, saturated_u32, AccountId, Balance, BlockNumber, Config, DispatchError, EndType, Error,
    Event, MoneyPot, MoneyPotIndex, Origin, PotHash,
};

verus! {

/// The pallet with the storage it keeps and the parts of the runtime that it
/// uses: the current block, the currency and the scheduler's agenda.
#[derive(Clone, Debug, PartialEq, Eq)]
pub struct Pallet {
    config: Config,
    block_number: BlockNumber,
    balances: Balances,
    agenda: Agenda,
    money_pots_count: MoneyPotIndex,
    money_pots_hash: Vec<PotHash>,
    money_pots: AssocList<PotHash, MoneyPot>,
    money_pot_owned: AssocList<AccountId, Vec<PotHash>>,
    money_pot_contribution: AssocList<PotHash, Vec<(AccountId, Balance)>>,
    events: Vec<Event>,
}

pub open spec fn hash_seqs(m: Map<AccountId, Vec<PotHash>>) -> Map<AccountId, Seq<PotHash>> {
    m.map_values(|v: Vec<PotHash>| v@)
}

pub open spec fn contribution_seqs(m: Map<PotHash, Vec<(AccountId, Balance)>>) -> Map<
    PotHash,
    Seq<(AccountId, Balance)>,
> {
    m.map_values(|v: Vec<(AccountId, Balance)>| v@)
}

/// Pays the contributions `cs` out to `to` on `ledger`.
fn settle(ledger: &mut Balances, cs: &Vec<(AccountId, Balance)>, to: AccountId) -> (r: Result<
    (),
    DispatchError,
>)
    requires
        old(ledger).wf(),
    ensures
        final(ledger).wf(),
        final(ledger).ed() == old(ledger).ed(),
        match spec_settle(old(ledger)@, old(ledger).ed(), cs@, to) {
            Ok(l) => r is Ok && final(ledger)@ == l,
            Err(e) => r == Err::<(), DispatchError>(e),
        },
        (final(ledger)@, r) == spec_settle_in_place(old(ledger)@, old(ledger).ed(), cs@, to),
{
    let ghost l0 = ledger@;
    let ghost ed = ledger.ed();
    let n = cs.len();
    for i in 0..n
        invariant
            n == cs@.len(),
            l0 == old(ledger)@,
            ed == old(ledger).ed(),
            ledger.wf(),
            ledger.ed() == ed,
            ledger@ == release_all(l0, cs@.take(i as int)),
            forall|j: int| 0 <= j < i ==> free_of(l0, #[trigger] cs@[j].0) >= cs@[j].1,
    {
        let (contributor, amount) = cs[i];
        proof {
            lemma_take_succ(cs@, i as int);
        }
        release_lock(ledger, contributor, amount);
        if ledger.free_balance(contributor) < amount {
            proof {
                lemma_release_all_free(l0, cs@.take(i + 1), contributor);
                assert(!covered(l0, cs@));
            }
            proof {
                assert(first_uncovered_at(l0, cs@, i as int));
                let k = choose|k: int| first_uncovered_at(l0, cs@, k);
                assert(k == i) by {
                    if k < i {
                        assert(free_of(l0, cs@[k].0) >= cs@[k].1);
                    } else if k > i {
                        assert(free_of(l0, cs@[i as int].0) >= cs@[i as int].1);
                    }
                }
            }
            return Err(DispatchError::Module(Error::NotEnoughBalance));
        }
        proof {
            lemma_release_all_free(l0, cs@.take(i + 1), contributor);
        }
    }
    assert(cs@.take(n as int) =~= cs@);
    let ghost u = ledger@;
    assert(pay_all(u, ed, cs@.take(0), to) == Ok::<_, crate::types::BalancesError>(u)
        && pay_until(u, ed, cs@.take(0), to) == (u, Ok::<(), crate::types::BalancesError>(()))) by {
        assert(cs@.take(0).len() == 0);
    }
    for i in 0..n
        invariant
            n == cs@.len(),
            l0 == old(ledger)@,
            ed == old(ledger).ed(),
            ledger.wf(),
            ledger.ed() == ed,
            u == release_all(l0, cs@),
            covered(l0, cs@),
            pay_all(u, ed, cs@.take(i as int), to) == Ok::<_, crate::types::BalancesError>(ledger@),
            pay_until(u, ed, cs@.take(i as int), to) == (ledger@, Ok::<(), crate::types::BalancesError>(())),
    {
        let (contributor, amount) = cs[i];
        proof {
            lemma_take_succ(cs@, i as int);
        }
        match ledger.transfer(contributor, to, amount) {
            Ok(()) => {},
            Err(e) => {
                proof {
                    lemma_pay_all_err_prefix(u, ed, cs@, to, i + 1);
                    lemma_pay_until_err_prefix(u, ed, cs@, to, i + 1);
                }
                return Err(DispatchError::Balances(e));
            },
        }
    }
    Ok(())
}

/// Raises the money pot lock of `who` on `ledger` by `amount`.
fn add_lock(ledger: &mut Balances, who: AccountId, amount: Balance)
    requires
        old(ledger).wf(),
    ensures
        final(ledger).wf(),
        final(ledger).ed() == old(ledger).ed(),
        final(ledger)@ == spec_add_lock(old(ledger)@, who, amount),
{
    let lock = ledger.account(who).lock;
    let total = if lock > u64::MAX - amount { u64::MAX } else { lock + amount };
    ledger.set_lock(who, total);
}

/// Lowers the money pot lock of `who` on `ledger` by `amount`, removing it where nothing remains.
fn release_lock(ledger: &mut Balances, who: AccountId, amount: Balance)
    requires
        old(ledger).wf(),
    ensures
        final(ledger).wf(),
        final(ledger).ed() == old(ledger).ed(),
        final(ledger)@ == spec_release_lock(old(ledger)@, who, amount),
{
    let lock = ledger.account(who).lock;
    if lock <= amount {
        ledger.remove_lock(who);
    } else {
        ledger.set_lock(who, lock - amount);
    }
}

/// Whether contributions `cs` end `pot` on block `now`.
fn need_transfer(cs: &Vec<(AccountId, Balance)>, money_pot: MoneyPot, now: BlockNumber) -> (r: Result<bool, Error>)
    requires
        sum_amounts(cs@) <= u64::MAX,
    ensures
        r == spec_need_transfer(cs@, money_pot, now),
{
    let mut total_amount: Balance = 0;
    let n = cs.len();
    for i in 0..n
        invariant
            n == cs@.len(),
            sum_amounts(cs@) <= u64::MAX,
            total_amount == sum_amounts(cs@.take(i as int)),
    {
        proof {
            lemma_take_succ(cs@, i as int);
            lemma_sum_amounts_prefix(cs@, i + 1);
        }
        total_amount = total_amount + cs[i].1;
    }
    assert(cs@.take(n as int) =~= cs@);
    match money_pot.end_time {
        None => Err(Error::NoEndTimeSpecified),
        Some(end_type) => match end_type {
            EndType::Time(end) => Ok(now >= end),
            EndType::AmountReached { amount_type: _, amount } => Ok(total_amount >= amount),
        },
    }
}

impl Pallet {
    /// The storage hangs together (see `consistent`) and each container keeps its own invariant.
    pub closed spec fn wf(&self) -> bool {
        &&& self.well_formed()
        &&& consistent(self.state())
    }

    closed spec fn well_formed(&self) -> bool {
        &&& self.balances.wf()
        &&& self.money_pots.wf()
        &&& self.money_pot_owned.wf()
        &&& self.money_pot_contribution.wf()
        &&& self.money_pots_count == self.money_pots_hash@.len()
    }

    /// The storage of a well-formed pallet hangs together: the count is the
    /// number of indexed pots, the indexed hashes are distinct and are the
    /// stored pots, each owner list holds that owner's pots in creation order,
    /// and scheduled calls and contributions are for stored pots.
    pub proof fn lemma_wf_consistent(&self)
        requires
            self.wf(),
        ensures
            consistent(self.state()),
    {
    }

    /// The state that the pallet holds.
    pub closed spec fn state(&self) -> State {
        State {
            config: self.config,
            block_number: self.block_number,
            ledger: self.balances@,
            ledger_ed: self.balances.ed(),
            agenda: self.agenda@,
            count: self.money_pots_count,
            hashes: self.money_pots_hash@,
            pots: self.money_pots@,
            owned: hash_seqs(self.money_pot_owned@),
            contributions: contribution_seqs(self.money_pot_contribution@),
            events: self.events@,
        }
    }

    /// A pallet with no pot, on block 0, over the currency `balances`.
    pub fn new(config: Config, balances: Balances) -> (r: Pallet)
        requires
            balances.wf(),
        ensures
            r.wf(),
            r.state() == (State {
                config,
                block_number: 0,
                ledger: balances@,
                ledger_ed: balances.ed(),
                agenda: Seq::empty(),
                count: 0,
                hashes: Seq::empty(),
                pots: Map::empty(),
                owned: Map::empty(),
                contributions: Map::empty(),
                events: Seq::empty(),
            }),
    {
        let r = Pallet {
            config,
            block_number: 0,
            balances,
            agenda: Agenda::new(),
            money_pots_count: 0,
            money_pots_hash: Vec::new(),
            money_pots: AssocList::new(),
            money_pot_owned: AssocList::new(),
            money_pot_contribution: AssocList::new(),
            events: Vec::new(),
        };
        assert(hash_seqs(r.money_pot_owned@) =~= Map::empty());
        assert(contribution_seqs(r.money_pot_contribution@) =~= Map::empty());
        r
    }

    // ---- storage getters ----

    pub fn config(&self) -> (r: Config)
        ensures
            r == self.state().config,
    {
        self.config
    }

    pub fn block_number(&self) -> (r: BlockNumber)
        ensures
            r == self.state().block_number,
    {
        self.block_number
    }

    /// How many pots have been created.
    pub fn money_pot_count(&self) -> (r: MoneyPotIndex)
        ensures
            r == self.state().count,
    {
        self.money_pots_count
    }

    /// The hash of the pot created as number `index`, counting from 1.
    pub fn money_pots_hash(&self, index: MoneyPotIndex) -> (r: Option<PotHash>)
        requires
            self.wf(),
        ensures
            r == (if 1 <= index <= self.state().hashes.len() {
                Some(self.state().hashes[index - 1])
            } else {
                None::<PotHash>
            }),
    {
        if 1 <= index && index <= self.money_pots_count {
            Some(self.money_pots_hash[(index - 1) as usize])
        } else {
            None
        }
    }

    /// The pot with hash `id`.
    pub fn money_pots(&self, id: &PotHash) -> (r: Option<MoneyPot>)
        requires
            self.wf(),
        ensures
            r == (if self.state().pots.dom().contains(*id) {
                Some(self.state().pots[*id])
            } else {
                None::<MoneyPot>
            }),
    {
        match self.money_pots.get(id) {
            Some(p) => Some(*p),
            None => None,
        }
    }

    /// The hashes of the pots opened by `who`.
    pub fn money_pot_owned(&self, who: AccountId) -> (r: Vec<PotHash>)
        requires
            self.wf(),
        ensures
            r@ == owned_of(self.state(), who),
    {
        match self.money_pot_owned.get(&who) {
            Some(v) => copy_vec(v),
            None => Vec::new(),
        }
    }

    /// The contributions to the pot `id`.
    pub fn money_pot_contribution(&self, id: PotHash) -> (r: Vec<(AccountId, Balance)>)
        requires
            self.wf(),
        ensures
            r@ == contributions_of(self.state(), id),
    {
        match self.money_pot_contribution.get(&id) {
            Some(v) => copy_vec(v),
            None => Vec::new(),
        }
    }

    /// The events deposited so far.
    pub fn events(&self) -> (r: Vec<Event>)
        ensures
            r@ == self.state().events,
    {
        copy_vec(&self.events)
    }

    /// The number of scheduled calls.
    pub fn scheduled_count(&self) -> (r: usize)
        ensures
            r == self.state().agenda.len(),
    {
        self.agenda.len()
    }

    pub fn free_balance(&self, who: AccountId) -> (r: Balance)
        requires
            self.wf(),
        ensures
            r == free_of(self.state().ledger, who),
    {
        self.balances.free_balance(who)
    }

    pub fn usable_balance(&self, who: AccountId) -> (r: Balance)
        requires
            self.wf(),
        ensures
            r == usable_of(self.state().ledger, who),
    {
        self.balances.usable_balance(who)
    }

    /// The reserved balance of `who`: the currency reserves nothing.
    pub fn reserved_balance(&self, who: AccountId) -> (r: Balance)
        ensures
            r == 0,
    {
        0
    }

    // ---- the runtime around the pallet ----

    /// Moves to block `n`.
    pub fn set_block_number(&mut self, n: BlockNumber)
        requires
            old(self).wf(),
        ensures
            final(self).wf(),
            final(self).state() == (State { block_number: n, ..old(self).state() }),
    {
        self.block_number = n;
        proof {
            lemma_same_owned_keeps(old(self).state(), self.state());
        }
    }

    /// Sets the free balance of `who` (to zero below the currency's existential deposit).
    pub fn set_balance(&mut self, who: AccountId, new_free: Balance)
        requires
            old(self).wf(),
        ensures
            final(self).wf(),
            final(self).state() == (State {
                ledger: crate::balances::spec_set_balance(
                    old(self).state().ledger,
                    old(self).state().ledger_ed,
                    who,
                    new_free,
                ),
                ..old(self).state()
            }),
    {
        self.balances.set_balance(who, new_free);
        proof {
            lemma_same_owned_keeps(old(self).state(), self.state());
        }
    }

    /// Runs the calls scheduled for the current block, each of which pays a pot out.
    pub fn on_initialize(&mut self)
        requires
            old(self).wf(),
        ensures
            final(self).wf(),
            final(self).state() == spec_on_initialize(old(self).state()),
    {
        let now = self.block_number;
        let ghost s0 = self.state();
        let due = self.agenda.take_due(now);
        let ghost s1 = self.state();
        assert(s1 == (State { agenda: crate::scheduler::not_due(s0.agenda, now), ..s0 }));
        proof {
            lemma_not_due_keeps(s0);
        }
        assert(run_calls(s1, due@.take(0)) == s1) by {
            assert(due@.take(0).len() == 0);
        }
        let n = due.len();
        for i in 0..n
            invariant
                n == due@.len(),
                self.wf(),
                self.state() == run_calls(s1, due@.take(i as int)),
        {
            proof {
                lemma_run_calls_prefix(s1, due@, i as int);
            }
            let _ = self.pay_out(due[i]);
        }
        assert(due@.take(n as int) =~= due@);
    }

    // ---- calls ----

    /// Creates a pot of the signer for `receiver` that pays out once `amount` has been contributed.
    pub fn create_with_limit_amount(&mut self, origin: Origin, receiver: AccountId, amount: Balance) -> (r:
        Result<(), DispatchError>)
        requires
            old(self).wf(),
            origin matches Origin::Signed(o) && saturated_u32(amount) > 0
                && amount >= old(self).state().config.min_contribution
                && may_open(old(self).state(), o) ==> old(self).state().count < u32::MAX,
        ensures
            final(self).wf(),
            match spec_create_with_limit_amount(old(self).state(), origin, receiver, amount) {
                Ok(s) => r is Ok && final(self).state() == s,
                Err(e) => r == Err::<(), DispatchError>(e) && final(self).state() == old(self).state(),
            },
    {
        let sender = match origin {
            Origin::Signed(who) => who,
            _ => return Err(DispatchError::BadOrigin),
        };
        if !(saturated_into_u32(amount) > 0u32 && amount >= self.config.min_contribution) {
            return Err(DispatchError::Module(Error::AmountToLow));
        }
        let mut created_money_pot = MoneyPot::create(&sender, &receiver, self.block_number);
        created_money_pot.with_native_currency_limit(amount);
        let ref_hash = match self.control_creation(created_money_pot) {
            Ok(h) => h,
            Err(e) => return Err(DispatchError::Module(e)),
        };
        self.deposit_event(Event::Created { ref_hash });
        proof {
            law_create_with_limit_amount_keeps(old(self).state(), origin, receiver, amount);
        }
        Ok(())
    }

    /// Creates a pot of the signer for `receiver` that pays out on block `end_block`,
    /// and schedules that payout.
    pub fn create_with_limit_block(&mut self, origin: Origin, receiver: AccountId, end_block: BlockNumber) -> (r:
        Result<(), DispatchError>)
        requires
            old(self).wf(),
            origin matches Origin::Signed(o) && end_block <= old(self).state().block_number
                + old(self).state().config.max_block_number_end_time
                && may_open(old(self).state(), o) ==> old(self).state().count < u32::MAX,
            origin is Signed ==> old(self).state().block_number
                + old(self).state().config.max_block_number_end_time <= u64::MAX,
        ensures
            final(self).wf(),
            match spec_create_with_limit_block(old(self).state(), origin, receiver, end_block) {
                Ok(s) => r is Ok && final(self).state() == s,
                Err(e) => r == Err::<(), DispatchError>(e) && final(self).state() == old(self).state(),
            },
    {
        let sender = match origin {
            Origin::Signed(who) => who,
            _ => return Err(DispatchError::BadOrigin),
        };
        let current_block = self.block_number;
        if end_block > current_block + self.config.max_block_number_end_time as u64 {
            return Err(DispatchError::Module(Error::ScheduleError));
        }
        let mut created_money_pot = MoneyPot::create(&sender, &receiver, current_block);
        created_money_pot.with_end_block(end_block);
        let (ref_hash, owned) = match self.check_creation(&created_money_pot) {
            Ok(c) => c,
            Err(e) => return Err(DispatchError::Module(e)),
        };
        let name = encode_schedule_name(&ref_hash);
        match self.agenda.schedule_named(current_block, name, end_block, ref_hash) {
            Ok(()) => {},
            Err(_) => return Err(DispatchError::Module(Error::ScheduleError)),
        }
        self.commit_creation(created_money_pot, ref_hash, owned);
        self.deposit_event(Event::Created { ref_hash });
        proof {
            law_create_with_limit_block_keeps(old(self).state(), origin, receiver, end_block);
        }
        Ok(())
    }

    /// Contributes `amount` of the signer to the pot `ref_hash`, and pays the
    /// pot out when this brings it to its target.
    pub fn add_balance(&mut self, origin: Origin, ref_hash: PotHash, amount: Balance) -> (r: Result<
        (),
        DispatchError,
    >)
        requires
            old(self).wf(),
            !add_balance_panics(old(self).state(), origin, ref_hash, amount),
        ensures
            final(self).wf(),
            match spec_add_balance(old(self).state(), origin, ref_hash, amount) {
                Ok(s) => r is Ok && final(self).state() == s,
                Err(e) => r == Err::<(), DispatchError>(e) && final(self).state() == old(self).state(),
            },
    {
        let contributor = match origin {
            Origin::Signed(who) => who,
            _ => return Err(DispatchError::BadOrigin),
        };
        if saturated_into_u32(amount % self.config.step_contribution) != 0u32 {
            return Err(DispatchError::Module(Error::InvalidAmountStep));
        }
        if amount < self.config.min_contribution {
            return Err(DispatchError::Module(Error::AmountToLow));
        }
        let money_pot = match self.get_money_pot(&ref_hash) {
            Ok(p) => p,
            Err(e) => return Err(DispatchError::Module(e)),
        };
        if !money_pot.is_active {
            return Err(DispatchError::Module(Error::MoneyPotIsClose));
        }
        if self.balances.free_balance(contributor) < amount {
            return Err(DispatchError::Module(Error::NotEnoughBalance));
        }
        let ghost s0 = self.state();
        let ghost cs0 = contributions_of(s0, ref_hash);
        let mut contributions = self.money_pot_contribution(ref_hash);
        proof {
            lemma_first_index_bounds(cs0, contributor);
        }
        match Self::find_contributor(&contributions, contributor) {
            Some(i) => {
                let previous = contributions[i];
                contributions.set(i, (contributor, previous.1 + amount));
            },
            None => {
                if contributions.len() >= self.config.max_money_pot_contributors as usize {
                    return Err(DispatchError::Module(Error::MaxMoneyPotContributors));
                }
                contributions.push((contributor, amount));
            },
        }
        assert(add_contribution(cs0, contributor, amount, s0.config.max_money_pot_contributors)
            == Some(contributions@));
        let need = match need_transfer(&contributions, money_pot, self.block_number) {
            Ok(b) => b,
            Err(e) => return Err(DispatchError::Module(e)),
        };
        let ghost s1 = State {
            ledger: spec_add_lock(s0.ledger, contributor, amount),
            contributions: s0.contributions.insert(ref_hash, contributions@),
            ..s0
        };
        if need {
            let mut ledger = self.balances.copy();
            add_lock(&mut ledger, contributor, amount);
            assert(contributions_of(s1, ref_hash) == contributions@);
            match settle(&mut ledger, &contributions, money_pot.receiver) {
                Ok(()) => {},
                Err(e) => return Err(e),
            }
            self.balances = ledger;
            self.store_contributions(ref_hash, contributions);
            let mut closed = money_pot;
            closed.close();
            self.money_pots.insert(ref_hash, closed);
            self.deposit_event(Event::Closed { ref_hash });
        } else {
            self.lock_balance(&contributor, amount);
            self.store_contributions(ref_hash, contributions);
        }
        self.deposit_event(Event::MoneyAdded { ref_hash, who: contributor, amount });
        proof {
            law_add_balance_keeps(old(self).state(), origin, ref_hash, amount);
        }
        Ok(())
    }

    /// Pays the pot `ref_hash` out and closes it; only the root may call it.
    pub fn transfer_balance(&mut self, origin: Origin, ref_hash: PotHash) -> (r: Result<(), DispatchError>)
        requires
            old(self).wf(),
            origin == Origin::Root,
        ensures
            final(self).wf(),
            match spec_transfer_contributions(old(self).state(), ref_hash) {
                Ok(s) => r is Ok && final(self).state() == s,
                Err(e) => r == Err::<(), DispatchError>(e) && final(self).state() == old(self).state(),
            },
    {
        self.pay_out(ref_hash)
    }

    // ---- helpers of the calls ----

    /// The pot `id`, or `DoesNotExists`.
    pub fn get_money_pot(&self, id: &PotHash) -> (r: Result<MoneyPot, Error>)
        requires
            self.wf(),
        ensures
            r == (if self.state().pots.dom().contains(*id) {
                Ok::<MoneyPot, Error>(self.state().pots[*id])
            } else {
                Err(Error::DoesNotExists)
            }),
    {
        if !self.check_if_money_pot_exists(id) {
            return Err(Error::DoesNotExists);
        }
        self.get_money_pot_from_hash(id)
    }

    /// Whether `potential_owner` owns the pot `id`; `DoesNotExists` where there is no such pot.
    pub fn check_owner(&self, potential_owner: &AccountId, id: &PotHash) -> (r: Result<bool, Error>)
        requires
            self.wf(),
        ensures
            r == (if self.state().pots.dom().contains(*id) {
                Ok::<bool, Error>(self.state().pots[*id].owner == *potential_owner)
            } else {
                Err(Error::DoesNotExists)
            }),
    {
        match self.get_money_pot_from_hash(id) {
            Ok(p) => Ok(p.owner == *potential_owner),
            Err(e) => Err(e),
        }
    }

    fn check_if_money_pot_exists(&self, id: &PotHash) -> (r: bool)
        requires
            self.wf(),
        ensures
            r == self.state().pots.dom().contains(*id),
    {
        self.money_pots.contains_key(id)
    }

    fn get_money_pot_from_hash(&self, id: &PotHash) -> (r: Result<MoneyPot, Error>)
        requires
            self.wf(),
        ensures
            r == (if self.state().pots.dom().contains(*id) {
                Ok::<MoneyPot, Error>(self.state().pots[*id])
            } else {
                Err(Error::DoesNotExists)
            }),
    {
        match self.money_pots.get(id) {
            Some(p) => Ok(*p),
            None => Err(Error::DoesNotExists),
        }
    }

    /// The hash of `money_pot` and its owner's pots with it added, where it may be stored.
    fn check_creation(&self, money_pot: &MoneyPot) -> (r: Result<(PotHash, Vec<PotHash>), Error>)
        requires
            self.wf(),
        ensures
            match spec_control_creation(self.state(), *money_pot) {
                Ok((_, h)) => r matches Ok((rh, owned)) && rh == h && owned@ == owned_of(
                    self.state(),
                    money_pot.owner,
                ).push(h),
                Err(e) => r == Err::<(PotHash, Vec<PotHash>), Error>(e),
            },
    {
        let money_pot_hash = money_pot_hash(money_pot);
        if self.money_pots.contains_key(&money_pot_hash) {
            return Err(Error::AlreadyExists);
        }
        let mut pots = self.money_pot_owned(money_pot.owner);
        if self.count_open(&pots) >= self.config.max_money_pot_currently_open as usize {
            return Err(Error::MaxOpenOverflow);
        }
        pots.push(money_pot_hash);
        Ok((money_pot_hash, pots))
    }

    /// How many of the pots `hs` are stored and still open.
    fn count_open(&self, hs: &Vec<PotHash>) -> (r: usize)
        requires
            self.wf(),
        ensures
            r == active_count(self.state().pots, hs@),
    {
        let mut count: usize = 0;
        let n = hs.len();
        for i in 0..n
            invariant
                n == hs@.len(),
                self.wf(),
                count <= i,
                count == active_count(self.state().pots, hs@.take(i as int)),
        {
            proof {
                lemma_take_succ(hs@, i as int);
            }
            match self.money_pots.get(&hs[i]) {
                Some(p) => {
                    if p.is_active {
                        count = count + 1;
                    }
                },
                None => {},
            }
        }
        assert(hs@.take(n as int) =~= hs@);
        count
    }

    /// Stores `money_pot` under `h` and records it for its owner and under the next index.
    fn commit_creation(&mut self, money_pot: MoneyPot, h: PotHash, owned: Vec<PotHash>)
        requires
            old(self).well_formed(),
            old(self).state().count < u32::MAX,
            h == hash_of(money_pot),
            !old(self).state().pots.dom().contains(h),
            active_count(old(self).state().pots, owned_of(old(self).state(), money_pot.owner))
                < old(self).state().config.max_money_pot_currently_open,
            owned@ == owned_of(old(self).state(), money_pot.owner).push(h),
        ensures
            final(self).well_formed(),
            spec_control_creation(old(self).state(), money_pot) == Ok::<(State, PotHash), Error>(
                (final(self).state(), h),
            ),
    {
        let ghost old_owned = self.money_pot_owned@;
        self.money_pot_owned.insert(money_pot.owner, owned);
        assert(hash_seqs(self.money_pot_owned@) =~= hash_seqs(old_owned).insert(money_pot.owner, owned@));
        self.money_pots.insert(h, money_pot);
        let pot_id = self.money_pots_count + 1;
        self.money_pots_count = pot_id;
        self.money_pots_hash.push(h);
    }

    /// Checks that `money_pot` may be stored and stores it; returns its hash.
    pub fn control_creation(&mut self, money_pot: MoneyPot) -> (r: Result<PotHash, Error>)
        requires
            old(self).wf(),
            may_open(old(self).state(), money_pot.owner) ==> old(self).state().count < u32::MAX,
        ensures
            final(self).wf(),
            match spec_control_creation(old(self).state(), money_pot) {
                Ok((s, h)) => r == Ok::<PotHash, Error>(h) && final(self).state() == s,
                Err(e) => r == Err::<PotHash, Error>(e) && final(self).state() == old(self).state(),
            },
    {
        let (h, owned) = match self.check_creation(&money_pot) {
            Ok(c) => c,
            Err(e) => return Err(e),
        };
        self.commit_creation(money_pot, h, owned);
        proof {
            lemma_control_creation_keeps(old(self).state(), money_pot);
        }
        Ok(h)
    }

    /// Checks that `contributor`'s free balance covers `amount` and, where it
    /// does, adds `amount` to what the money pot lock holds of that balance;
    /// otherwise it changes nothing.
    pub fn lock_balance(&mut self, contributor: &AccountId, amount: Balance)
        requires
            old(self).wf(),
        ensures
            final(self).wf(),
            final(self).state() == (State {
                ledger: spec_lock_balance(old(self).state().ledger, *contributor, amount),
                ..old(self).state()
            }),
    {
        if self.balances.free_balance(*contributor) >= amount {
            add_lock(&mut self.balances, *contributor, amount);
        }
        proof {
            lemma_same_owned_keeps(old(self).state(), self.state());
        }
    }

    /// Whether the contributions to the pot `id` end `money_pot` on the current block.
    pub fn is_need_transfer(&self, id: &PotHash, money_pot: MoneyPot) -> (r: Result<bool, Error>)
        requires
            self.wf(),
            sum_amounts(contributions_of(self.state(), *id)) <= u64::MAX,
        ensures
            r == spec_need_transfer(contributions_of(self.state(), *id), money_pot, self.state().block_number),
    {
        let contributions = self.money_pot_contribution(*id);
        need_transfer(&contributions, money_pot, self.block_number)
    }

    /// Pays the pot `ref_hash` out to its receiver and closes it, as a
    /// dispatched call does: where a step fails, nothing of the payout stays.
    fn pay_out(&mut self, ref_hash: PotHash) -> (r: Result<(), DispatchError>)
        requires
            old(self).wf(),
        ensures
            final(self).wf(),
            match spec_transfer_contributions(old(self).state(), ref_hash) {
                Ok(s) => r is Ok && final(self).state() == s,
                Err(e) => r == Err::<(), DispatchError>(e) && final(self).state() == old(self).state(),
            },
    {
        if !self.check_if_money_pot_exists(&ref_hash) {
            return Err(DispatchError::Module(Error::DoesNotExists));
        }
        let mut money_pot = match self.get_money_pot_from_hash(&ref_hash) {
            Ok(p) => p,
            Err(e) => return Err(DispatchError::Module(e)),
        };
        let contributions = self.money_pot_contribution(ref_hash);
        let mut ledger = self.balances.copy();
        match settle(&mut ledger, &contributions, money_pot.receiver) {
            Ok(()) => {},
            Err(e) => return Err(e),
        }
        self.balances = ledger;
        money_pot.close();
        self.money_pots.insert(ref_hash, money_pot);
        self.deposit_event(Event::Closed { ref_hash });
        proof {
            law_transfer_contributions_keeps(old(self).state(), ref_hash);
        }
        Ok(())
    }

    /// Pays the pot `ref_hash` out to its receiver and closes it. Called on
    /// its own, it keeps what its steps did before one failed: the locks
    /// already released and the transfers already made (see
    /// `spec_settle_in_place`); where it succeeds it is the payout that
    /// `spec_transfer_contributions` states.
    pub fn transfer_contributions(&mut self, ref_hash: PotHash) -> (r: Result<(), DispatchError>)
        requires
            old(self).wf(),
        ensures
            final(self).wf(),
            (final(self).state(), r) == spec_transfer_contributions_in_place(old(self).state(), ref_hash),
            r is Ok ==> spec_transfer_contributions(old(self).state(), ref_hash) == Ok::<State, DispatchError>(
                final(self).state(),
            ),
    {
        if !self.check_if_money_pot_exists(&ref_hash) {
            return Err(DispatchError::Module(Error::DoesNotExists));
        }
        let mut money_pot = match self.get_money_pot_from_hash(&ref_hash) {
            Ok(p) => p,
            Err(e) => return Err(DispatchError::Module(e)),
        };
        let contributions = self.money_pot_contribution(ref_hash);
        match settle(&mut self.balances, &contributions, money_pot.receiver) {
            Ok(()) => {},
            Err(e) => {
                proof {
                    lemma_same_owned_keeps(old(self).state(), self.state());
                }
                return Err(e);
            },
        }
        money_pot.close();
        self.money_pots.insert(ref_hash, money_pot);
        self.deposit_event(Event::Closed { ref_hash });
        proof {
            law_transfer_contributions_keeps(old(self).state(), ref_hash);
        }
        Ok(())
    }

    /// The first position of `who` among `contributions`.
    fn find_contributor(contributions: &Vec<(AccountId, Balance)>, who: AccountId) -> (r: Option<usize>)
        ensures
            match r {
                Some(i) => first_index(contributions@, who) == i,
                None => first_index(contributions@, who) == -1,
            },
    {
        let n = contributions.len();
        for i in 0..n
            invariant
                n == contributions@.len(),
                first_index(contributions@.take(i as int), who) == -1,
        {
            proof {
                lemma_take_succ(contributions@, i as int);
            }
            if contributions[i].0 == who {
                proof {
                    lemma_first_index_prefix(contributions@, who, i + 1);
                }
                return Some(i);
            }
        }
        assert(contributions@.take(n as int) =~= contributions@);
        None
    }

    fn store_contributions(&mut self, ref_hash: PotHash, contributions: Vec<(AccountId, Balance)>)
        requires
            old(self).well_formed(),
        ensures
            final(self).well_formed(),
            final(self).state() == (State {
                contributions: old(self).state().contributions.insert(ref_hash, contributions@),
                ..old(self).state()
            }),
    {
        let ghost old_map = self.money_pot_contribution@;
        self.money_pot_contribution.insert(ref_hash, contributions);
        assert(contribution_seqs(self.money_pot_contribution@) =~= contribution_seqs(old_map).insert(
            ref_hash,
            contributions@,
        ));
    }

    fn deposit_event(&mut self, event: Event)
        requires
            old(self).well_formed(),
        ensures
            final(self).well_formed(),
            final(self).state() == (State { events: old(self).state().events.push(event), ..old(self).state() }),
    {
        self.events.push(event);
    }
}

} // verus!
