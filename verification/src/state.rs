//! The state of the pallet as mathematical values, and what each call makes
//! of it.

use vstd::prelude::*;
use crate::balances::{
    account, free_of, spec_remove_lock, spec_set_lock, spec_transfer, Ledger,
};
use crate::scale::hash_of;
use crate::scheduler::{due_calls, not_due, spec_schedule_named, TaskView};
use crate::types::{
    saturated_u32, AccountId, AmountType, Balance, BlockNumber, Config, DispatchError, EndType,
    Error, Event, MoneyPot, MoneyPotIndex, Origin, PotHash,
};
use crate::scale::schedule_name;

verus! {

/// Everything that the pallet's calls read and write.
pub struct State {
    /// The pallet's constants
    pub config: Config,
    /// The current block
    pub block_number: BlockNumber,
    /// The currency's accounts
    pub ledger: Ledger,
    /// The currency's existential deposit
    pub ledger_ed: Balance,
    /// The scheduled calls
    pub agenda: Seq<TaskView>,
    /// How many pots have been created
    pub count: MoneyPotIndex,
    /// `hashes[i]` is the hash of the pot created as number `i + 1`
    pub hashes: Seq<PotHash>,
    /// The pots, by hash
    pub pots: Map<PotHash, MoneyPot>,
    /// The hashes of the pots that each account has opened
    pub owned: Map<AccountId, Seq<PotHash>>,
    /// The contributions to each pot, in the order of the contributors' first contribution
    pub contributions: Map<PotHash, Seq<(AccountId, Balance)>>,
    /// The events deposited so far
    pub events: Seq<Event>,
}

/// The pots opened by `a` (none where the map has no entry).
pub open spec fn owned_of(s: State, a: AccountId) -> Seq<PotHash> {
    if s.owned.dom().contains(a) {
        s.owned[a]
    } else {
        Seq::empty()
    }
}

/// The contributions to the pot `h` (none where the map has no entry).
pub open spec fn contributions_of(s: State, h: PotHash) -> Seq<(AccountId, Balance)> {
    if s.contributions.dom().contains(h) {
        s.contributions[h]
    } else {
        Seq::empty()
    }
}

/// The sum of the amounts of `cs`.
pub open spec fn sum_amounts(cs: Seq<(AccountId, Balance)>) -> int
    decreases cs.len(),
{
    if cs.len() == 0 {
        0
    } else {
        sum_amounts(cs.drop_last()) + cs.last().1
    }
}

/// The first position of `who` in `cs`, or -1.
pub open spec fn first_index(cs: Seq<(AccountId, Balance)>, who: AccountId) -> int
    decreases cs.len(),
{
    if cs.len() == 0 {
        -1
    } else {
        let r = first_index(cs.drop_last(), who);
        if r >= 0 {
            r
        } else if cs.last().0 == who {
            cs.len() - 1
        } else {
            -1
        }
    }
}

/// The contributions with `amount` added for `who`: to `who`'s earlier
/// contribution, else as a new last one; `None` where a new one does not fit.
pub open spec fn add_contribution(
    cs: Seq<(AccountId, Balance)>,
    who: AccountId,
    amount: Balance,
    max: u32,
) -> Option<Seq<(AccountId, Balance)>> {
    let i = first_index(cs, who);
    if i >= 0 {
        Some(cs.update(i, (who, (cs[i].1 + amount) as Balance)))
    } else if cs.len() >= max {
        None
    } else {
        Some(cs.push((who, amount)))
    }
}

/// Whether contributions `cs` end `pot` on block `now`: a pot with an amount
/// target ends once they reach it, one with an end block once that block has come.
pub open spec fn spec_need_transfer(cs: Seq<(AccountId, Balance)>, pot: MoneyPot, now: BlockNumber) -> Result<
    bool,
    Error,
> {
    match pot.end_time {
        None => Err(Error::NoEndTimeSpecified),
        Some(EndType::Time(end)) => Ok(now >= end),
        Some(EndType::AmountReached { amount_type: _, amount }) => Ok(sum_amounts(cs) >= amount),
    }
}

/// `a + b`, or the largest balance where that does not fit.
pub open spec fn sat_add(a: Balance, b: Balance) -> Balance {
    if a + b > u64::MAX { u64::MAX } else { (a + b) as Balance }
}

/// The money pot lock of `who` raised by `amount`: the lock holds what `who`
/// has contributed and not yet been paid out.
pub open spec fn spec_add_lock(l: Ledger, who: AccountId, amount: Balance) -> Ledger {
    spec_set_lock(l, who, sat_add(account(l, who).lock, amount))
}

/// The money pot lock of `who` raised by `amount` where its free balance
/// covers `amount`; the ledger as it was otherwise.
pub open spec fn spec_lock_balance(l: Ledger, who: AccountId, amount: Balance) -> Ledger {
    if free_of(l, who) >= amount {
        spec_add_lock(l, who, amount)
    } else {
        l
    }
}

/// The money pot lock of `who` lowered by `amount`, and removed where nothing would remain.
pub open spec fn spec_release_lock(l: Ledger, who: AccountId, amount: Balance) -> Ledger {
    let lock = account(l, who).lock;
    if lock <= amount {
        spec_remove_lock(l, who)
    } else {
        spec_set_lock(l, who, (lock - amount) as Balance)
    }
}

/// The ledger with each contribution of `cs` released from its contributor's lock.
pub open spec fn release_all(l: Ledger, cs: Seq<(AccountId, Balance)>) -> Ledger
    decreases cs.len(),
{
    if cs.len() == 0 {
        l
    } else {
        spec_release_lock(release_all(l, cs.drop_last()), cs.last().0, cs.last().1)
    }
}

/// Every contributor's free balance covers its contribution.
pub open spec fn covered(l: Ledger, cs: Seq<(AccountId, Balance)>) -> bool {
    forall|i: int| 0 <= i < cs.len() ==> free_of(l, #[trigger] cs[i].0) >= cs[i].1
}

/// The transfers of all contributions of `cs` to `to`, one after the other.
pub open spec fn pay_all(l: Ledger, ed: Balance, cs: Seq<(AccountId, Balance)>, to: AccountId) -> Result<
    Ledger,
    crate::types::BalancesError,
>
    decreases cs.len(),
{
    if cs.len() == 0 {
        Ok(l)
    } else {
        match pay_all(l, ed, cs.drop_last(), to) {
            Ok(l2) => spec_transfer(l2, ed, cs.last().0, to, cs.last().1),
            Err(e) => Err(e),
        }
    }
}

/// Pays contributions `cs` out to `to`: each contribution leaves its
/// contributor's lock and must be covered, then each is transferred.
pub open spec fn spec_settle(l: Ledger, ed: Balance, cs: Seq<(AccountId, Balance)>, to: AccountId) -> Result<
    Ledger,
    DispatchError,
> {
    if !covered(l, cs) {
        Err(DispatchError::Module(Error::NotEnoughBalance))
    } else {
        match pay_all(release_all(l, cs), ed, cs, to) {
            Ok(l2) => Ok(l2),
            Err(e) => Err(DispatchError::Balances(e)),
        }
    }
}

/// Whether the contribution at `k` is the first of `cs` that its
/// contributor's free balance does not cover.
pub open spec fn first_uncovered_at(l: Ledger, cs: Seq<(AccountId, Balance)>, k: int) -> bool {
    &&& 0 <= k < cs.len()
    &&& free_of(l, cs[k].0) < cs[k].1
    &&& forall|j: int| 0 <= j < k ==> free_of(l, #[trigger] cs[j].0) >= cs[j].1
}

/// The transfers of the contributions `cs` to `to`, one after the other, up
/// to the first that fails: the ledger they reach, and the error of the one
/// that failed, if one did.
pub open spec fn pay_until(l: Ledger, ed: Balance, cs: Seq<(AccountId, Balance)>, to: AccountId) -> (
    Ledger,
    Result<(), crate::types::BalancesError>,
)
    decreases cs.len(),
{
    if cs.len() == 0 {
        (l, Ok(()))
    } else {
        let before = pay_until(l, ed, cs.drop_last(), to);
        match before.1 {
            Err(e) => (before.0, Err(e)),
            Ok(_) => match spec_transfer(before.0, ed, cs.last().0, to, cs.last().1) {
                Ok(l2) => (l2, Ok(())),
                Err(e) => (before.0, Err(e)),
            },
        }
    }
}

/// A payout of `cs` to `to` made step by step, with what each step did kept:
/// each contribution leaves its contributor's lock in turn until one is not
/// covered by the free balance; then each is transferred in turn until one
/// fails. The ledger reached, and the error where a step failed.
pub open spec fn spec_settle_in_place(l: Ledger, ed: Balance, cs: Seq<(AccountId, Balance)>, to: AccountId) -> (
    Ledger,
    Result<(), DispatchError>,
) {
    if !covered(l, cs) {
        let k = choose|k: int| first_uncovered_at(l, cs, k);
        (release_all(l, cs.take(k + 1)), Err(DispatchError::Module(Error::NotEnoughBalance)))
    } else {
        let paid = pay_until(release_all(l, cs), ed, cs, to);
        (
            paid.0,
            match paid.1 {
                Ok(_) => Ok(()),
                Err(e) => Err(DispatchError::Balances(e)),
            },
        )
    }
}

/// The pot `h` paid out and closed by a call made on its own, outside a
/// dispatched call, which keeps what its steps did before one failed (see
/// `spec_settle_in_place`): the state reached and the result.
pub open spec fn spec_transfer_contributions_in_place(s: State, h: PotHash) -> (State, Result<(), DispatchError>) {
    if !s.pots.dom().contains(h) {
        (s, Err(DispatchError::Module(Error::DoesNotExists)))
    } else {
        let pot = s.pots[h];
        let settled = spec_settle_in_place(s.ledger, s.ledger_ed, contributions_of(s, h), pot.receiver);
        match settled.1 {
            Ok(_) => (
                State {
                    ledger: settled.0,
                    pots: s.pots.insert(h, MoneyPot { is_active: false, ..pot }),
                    events: s.events.push(Event::Closed { ref_hash: h }),
                    ..s
                },
                Ok(()),
            ),
            Err(e) => (State { ledger: settled.0, ..s }, Err(e)),
        }
    }
}

/// Pays the pot `h` out to its receiver and closes it.
pub open spec fn spec_transfer_contributions(s: State, h: PotHash) -> Result<State, DispatchError> {
    if !s.pots.dom().contains(h) {
        Err(DispatchError::Module(Error::DoesNotExists))
    } else {
        let pot = s.pots[h];
        match spec_settle(s.ledger, s.ledger_ed, contributions_of(s, h), pot.receiver) {
            Ok(l) => Ok(
                State {
                    ledger: l,
                    pots: s.pots.insert(h, MoneyPot { is_active: false, ..pot }),
                    events: s.events.push(Event::Closed { ref_hash: h }),
                    ..s
                },
            ),
            Err(e) => Err(e),
        }
    }
}

/// How many of the pots `hs` are stored and still open.
pub open spec fn active_count(pots: Map<PotHash, MoneyPot>, hs: Seq<PotHash>) -> nat
    decreases hs.len(),
{
    if hs.len() == 0 {
        0
    } else {
        active_count(pots, hs.drop_last()) + if pots.dom().contains(hs.last()) && pots[hs.last()].is_active {
            1nat
        } else {
            0nat
        }
    }
}

/// Stores a new pot: refused where a pot with its hash exists or its owner
/// already has as many open pots as allowed.
pub open spec fn spec_control_creation(s: State, pot: MoneyPot) -> Result<(State, PotHash), Error> {
    let h = hash_of(pot);
    if s.pots.dom().contains(h) {
        Err(Error::AlreadyExists)
    } else if active_count(s.pots, owned_of(s, pot.owner)) >= s.config.max_money_pot_currently_open {
        Err(Error::MaxOpenOverflow)
    } else {
        Ok(
            (
                State {
                    pots: s.pots.insert(h, pot),
                    owned: s.owned.insert(pot.owner, owned_of(s, pot.owner).push(h)),
                    count: (s.count + 1) as MoneyPotIndex,
                    hashes: s.hashes.push(h),
                    ..s
                },
                h,
            ),
        )
    }
}

/// Whether `owner` may open one more pot: fewer of its pots are open than allowed.
pub open spec fn may_open(s: State, owner: AccountId) -> bool {
    active_count(s.pots, owned_of(s, owner)) < s.config.max_money_pot_currently_open
}

/// A new active pot.
pub open spec fn new_pot(owner: AccountId, receiver: AccountId, start_time: BlockNumber, end: EndType) -> MoneyPot {
    MoneyPot { owner, receiver, start_time, end_time: Some(end), is_active: true }
}

/// A pot that pays `receiver` once `amount` has been contributed.
pub open spec fn spec_create_with_limit_amount(
    s: State,
    origin: Origin,
    receiver: AccountId,
    amount: Balance,
) -> Result<State, DispatchError> {
    match origin {
        Origin::Signed(sender) => {
            if !(saturated_u32(amount) > 0 && amount >= s.config.min_contribution) {
                Err(DispatchError::Module(Error::AmountToLow))
            } else {
                let pot = new_pot(
                    sender,
                    receiver,
                    s.block_number,
                    EndType::AmountReached { amount_type: AmountType::Native, amount },
                );
                match spec_control_creation(s, pot) {
                    Err(e) => Err(DispatchError::Module(e)),
                    Ok((s2, h)) => Ok(State { events: s2.events.push(Event::Created { ref_hash: h }), ..s2 }),
                }
            }
        },
        _ => Err(DispatchError::BadOrigin),
    }
}

/// A pot that pays `receiver` on block `end_block`, with its payout scheduled.
pub open spec fn spec_create_with_limit_block(
    s: State,
    origin: Origin,
    receiver: AccountId,
    end_block: BlockNumber,
) -> Result<State, DispatchError> {
    match origin {
        Origin::Signed(sender) => {
            if end_block > s.block_number + s.config.max_block_number_end_time {
                Err(DispatchError::Module(Error::ScheduleError))
            } else {
                let pot = new_pot(sender, receiver, s.block_number, EndType::Time(end_block));
                match spec_control_creation(s, pot) {
                    Err(e) => Err(DispatchError::Module(e)),
                    Ok((s2, h)) => match spec_schedule_named(
                        s2.agenda,
                        s2.block_number,
                        TaskView { name: schedule_name(h), when: end_block, call: h },
                    ) {
                        Err(_) => Err(DispatchError::Module(Error::ScheduleError)),
                        Ok(agenda) => Ok(
                            State { agenda, events: s2.events.push(Event::Created { ref_hash: h }), ..s2 },
                        ),
                    },
                }
            }
        },
        _ => Err(DispatchError::BadOrigin),
    }
}

/// A contribution of `amount` to the pot `h`, which pays the pot out where it reaches its target.
pub open spec fn spec_add_balance(s: State, origin: Origin, h: PotHash, amount: Balance) -> Result<
    State,
    DispatchError,
> {
    match origin {
        Origin::Signed(who) => {
            if saturated_u32(amount % s.config.step_contribution) != 0 {
                Err(DispatchError::Module(Error::InvalidAmountStep))
            } else if amount < s.config.min_contribution {
                Err(DispatchError::Module(Error::AmountToLow))
            } else if !s.pots.dom().contains(h) {
                Err(DispatchError::Module(Error::DoesNotExists))
            } else if !s.pots[h].is_active {
                Err(DispatchError::Module(Error::MoneyPotIsClose))
            } else if free_of(s.ledger, who) < amount {
                Err(DispatchError::Module(Error::NotEnoughBalance))
            } else {
                match add_contribution(
                    contributions_of(s, h),
                    who,
                    amount,
                    s.config.max_money_pot_contributors,
                ) {
                    None => Err(DispatchError::Module(Error::MaxMoneyPotContributors)),
                    Some(cs) => {
                        let s1 = State {
                            ledger: spec_add_lock(s.ledger, who, amount),
                            contributions: s.contributions.insert(h, cs),
                            ..s
                        };
                        let added = Event::MoneyAdded { ref_hash: h, who, amount };
                        match spec_need_transfer(cs, s.pots[h], s.block_number) {
                            Err(e) => Err(DispatchError::Module(e)),
                            Ok(false) => Ok(State { events: s1.events.push(added), ..s1 }),
                            Ok(true) => match spec_transfer_contributions(s1, h) {
                                Err(e) => Err(e),
                                Ok(s2) => Ok(State { events: s2.events.push(added), ..s2 }),
                            },
                        }
                    },
                }
            }
        },
        _ => Err(DispatchError::BadOrigin),
    }
}

/// The inputs on which a contribution would divide by zero or overflow: a
/// zero step; an amount whose sum with the contributor's earlier
/// contribution, or with all contributions of the pot, does not fit a
/// balance, where the call gets that far.
pub open spec fn add_balance_panics(s: State, origin: Origin, h: PotHash, amount: Balance) -> bool {
    match origin {
        Origin::Signed(who) => {
            ||| s.config.step_contribution == 0
            ||| {
                let cs = contributions_of(s, h);
                let i = first_index(cs, who);
                &&& saturated_u32(amount % s.config.step_contribution) == 0
                &&& amount >= s.config.min_contribution
                &&& s.pots.dom().contains(h)
                &&& s.pots[h].is_active
                &&& free_of(s.ledger, who) >= amount
                &&& {
                    ||| i >= 0 && cs[i].1 + amount > u64::MAX
                    ||| match add_contribution(cs, who, amount, s.config.max_money_pot_contributors) {
                        Some(cs2) => sum_amounts(cs2) > u64::MAX,
                        None => false,
                    }
                }
            }
        },
        _ => false,
    }
}

/// A call of `transfer_balance` dispatched by the scheduler: on an error the state stays as it was.
pub open spec fn run_call(s: State, h: PotHash) -> State {
    match spec_transfer_contributions(s, h) {
        Ok(s2) => s2,
        Err(_) => s,
    }
}

/// The calls for the pots `hs`, one after the other.
pub open spec fn run_calls(s: State, hs: Seq<PotHash>) -> State
    decreases hs.len(),
{
    if hs.len() == 0 {
        s
    } else {
        run_call(run_calls(s, hs.drop_last()), hs.last())
    }
}

/// The start of the current block: the calls due on it leave the agenda and run.
pub open spec fn spec_on_initialize(s: State) -> State {
    run_calls(State { agenda: not_due(s.agenda, s.block_number), ..s }, due_calls(s.agenda, s.block_number))
}

// ---- lemmas on the definitions ----

pub proof fn lemma_take_succ<A>(s: Seq<A>, i: int)
    requires
        0 <= i < s.len(),
    ensures
        s.take(i + 1).drop_last() == s.take(i),
        s.take(i + 1).last() == s[i],
{
    assert(s.take(i + 1).drop_last() =~= s.take(i));
}

pub proof fn lemma_sum_amounts_nonneg(cs: Seq<(AccountId, Balance)>)
    ensures
        0 <= sum_amounts(cs),
    decreases cs.len(),
{
    if cs.len() > 0 {
        lemma_sum_amounts_nonneg(cs.drop_last());
    }
}

pub proof fn lemma_sum_amounts_prefix(cs: Seq<(AccountId, Balance)>, k: int)
    requires
        0 <= k <= cs.len(),
    ensures
        0 <= sum_amounts(cs.take(k)) <= sum_amounts(cs),
    decreases cs.len(),
{
    lemma_sum_amounts_nonneg(cs.take(k));
    if k == cs.len() {
        assert(cs.take(k) =~= cs);
    } else {
        assert(cs.drop_last().take(k) =~= cs.take(k));
        lemma_sum_amounts_prefix(cs.drop_last(), k);
    }
}

pub proof fn lemma_first_index_prefix(cs: Seq<(AccountId, Balance)>, who: AccountId, k: int)
    requires
        0 <= k <= cs.len(),
        first_index(cs.take(k), who) >= 0,
    ensures
        first_index(cs, who) == first_index(cs.take(k), who),
    decreases cs.len(),
{
    if k == cs.len() {
        assert(cs.take(k) =~= cs);
    } else {
        assert(cs.drop_last().take(k) =~= cs.take(k));
        lemma_first_index_prefix(cs.drop_last(), who, k);
    }
}

pub proof fn lemma_first_index_bounds(cs: Seq<(AccountId, Balance)>, who: AccountId)
    ensures
        -1 <= first_index(cs, who) < cs.len(),
        first_index(cs, who) >= 0 ==> cs[first_index(cs, who)].0 == who,
        first_index(cs, who) < 0 ==> forall|j: int| 0 <= j < cs.len() ==> #[trigger] cs[j].0 != who,
    decreases cs.len(),
{
    if cs.len() > 0 {
        let t = cs.drop_last();
        lemma_first_index_bounds(t, who);
        if first_index(t, who) >= 0 {
            assert(cs[first_index(t, who)] == t[first_index(t, who)]);
        }
        if first_index(cs, who) < 0 {
            assert forall|j: int| 0 <= j < cs.len() implies #[trigger] cs[j].0 != who by {
                if j < cs.len() - 1 {
                    assert(cs[j] == t[j]);
                }
            }
        }
    }
}

pub proof fn lemma_pay_all_err_prefix(
    l: Ledger,
    ed: Balance,
    cs: Seq<(AccountId, Balance)>,
    to: AccountId,
    k: int,
)
    requires
        0 <= k <= cs.len(),
        pay_all(l, ed, cs.take(k), to) is Err,
    ensures
        pay_all(l, ed, cs, to) == pay_all(l, ed, cs.take(k), to),
    decreases cs.len(),
{
    if k == cs.len() {
        assert(cs.take(k) =~= cs);
    } else {
        assert(cs.drop_last().take(k) =~= cs.take(k));
        lemma_pay_all_err_prefix(l, ed, cs.drop_last(), to, k);
    }
}

pub proof fn lemma_pay_until_err_prefix(
    l: Ledger,
    ed: Balance,
    cs: Seq<(AccountId, Balance)>,
    to: AccountId,
    k: int,
)
    requires
        0 <= k <= cs.len(),
        pay_until(l, ed, cs.take(k), to).1 is Err,
    ensures
        pay_until(l, ed, cs, to) == pay_until(l, ed, cs.take(k), to),
    decreases cs.len(),
{
    if k == cs.len() {
        assert(cs.take(k) =~= cs);
    } else {
        assert(cs.drop_last().take(k) =~= cs.take(k));
        lemma_pay_until_err_prefix(l, ed, cs.drop_last(), to, k);
    }
}

pub proof fn lemma_release_all_free(l: Ledger, cs: Seq<(AccountId, Balance)>, a: AccountId)
    ensures
        free_of(release_all(l, cs), a) == free_of(l, a),
    decreases cs.len(),
{
    if cs.len() > 0 {
        lemma_release_all_free(l, cs.drop_last(), a);
    }
}

pub proof fn lemma_run_calls_prefix(s: State, hs: Seq<PotHash>, i: int)
    requires
        0 <= i < hs.len(),
    ensures
        run_calls(s, hs.take(i + 1)) == run_call(run_calls(s, hs.take(i)), hs[i]),
{
    lemma_take_succ(hs, i);
}

} // verus!
