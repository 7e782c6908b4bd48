//! What holds of the pallet across its calls.

use vstd::prelude::*;
use crate::balances::{account, free_of, spec_transfer, Ledger};
use crate::scale::hash_of;
use crate::scheduler::{lemma_not_due_subset, not_due, due_calls, TaskView};
use crate::state::{
    active_count, add_contribution, contributions_of, lemma_first_index_bounds,
    lemma_release_all_free, spec_add_lock, new_pot, owned_of, pay_all, run_call, run_calls, spec_add_balance,
    spec_control_creation, spec_create_with_limit_amount, spec_create_with_limit_block,
    spec_need_transfer, spec_on_initialize, spec_settle, spec_transfer_contributions,
    sum_amounts, release_all, State,
};
use crate::types::{
    AccountId, AmountType, Balance, BlockNumber, DispatchError, EndType, Error, Event, MoneyPot,
    Origin, PotHash,
};

verus! {

/// The sum of the amounts that `a` has in `cs`.
pub open spec fn contributed(cs: Seq<(AccountId, Balance)>, a: AccountId) -> int
    decreases cs.len(),
{
    if cs.len() == 0 {
        0
    } else {
        contributed(cs.drop_last(), a) + if cs.last().0 == a { cs.last().1 as int } else { 0 }
    }
}

/// The free balance of `a` after contributions `cs` have been paid to `to`.
pub open spec fn paid_out_free(l: Ledger, cs: Seq<(AccountId, Balance)>, to: AccountId, a: AccountId) -> int {
    free_of(l, a) - contributed(cs, a) + if a == to { sum_amounts(cs) } else { 0 }
}

/// The hashes among `hs` of the pots that `a` owns, in the order of `hs`.
pub open spec fn owned_in(hs: Seq<PotHash>, pots: Map<PotHash, MoneyPot>, a: AccountId) -> Seq<PotHash>
    decreases hs.len(),
{
    if hs.len() == 0 {
        Seq::empty()
    } else {
        let rest = owned_in(hs.drop_last(), pots, a);
        if pots[hs.last()].owner == a {
            rest.push(hs.last())
        } else {
            rest
        }
    }
}

/// No account appears twice among the contributions `cs`.
pub open spec fn distinct_contributors(cs: Seq<(AccountId, Balance)>) -> bool {
    forall|i: int, j: int|
        #![trigger cs[i], cs[j]]
        0 <= i < cs.len() && 0 <= j < cs.len() && i != j ==> cs[i].0 != cs[j].0
}

/// The storage of the pallet hangs together: the count is the number of
/// indexed pots; the indexed hashes are distinct and are exactly the stored
/// pots; each account's list holds the hashes of the pots it owns, in the
/// order of their creation; no account has more open pots than allowed;
/// scheduled calls and contributions are for stored pots; and no pot has more
/// contributors than allowed, nor any contributor twice.
pub open spec fn consistent(s: State) -> bool {
    &&& s.count == s.hashes.len()
    &&& forall|i: int, j: int|
        #![trigger s.hashes[i], s.hashes[j]]
        0 <= i < s.hashes.len() && 0 <= j < s.hashes.len() && i != j ==> s.hashes[i] != s.hashes[j]
    &&& forall|h: PotHash| #[trigger] s.pots.dom().contains(h) <==> s.hashes.contains(h)
    &&& forall|a: AccountId| #[trigger] owned_of(s, a) == owned_in(s.hashes, s.pots, a)
    &&& forall|a: AccountId|
        #[trigger] active_count(s.pots, owned_of(s, a)) <= s.config.max_money_pot_currently_open
    &&& forall|i: int| 0 <= i < s.agenda.len() ==> s.pots.dom().contains(#[trigger] s.agenda[i].call)
    &&& forall|h: PotHash| #[trigger] s.contributions.dom().contains(h) ==> s.pots.dom().contains(h)
    &&& forall|h: PotHash| #[trigger] contributions_of(s, h).len() <= s.config.max_money_pot_contributors
    &&& forall|h: PotHash| #[trigger] distinct_contributors(contributions_of(s, h))
}

/// From `s` to `s2` every pot is kept, only its activity may change, and a
/// closed pot stays closed; the constants stay as they were.
pub open spec fn pots_kept(s: State, s2: State) -> bool {
    &&& s2.config == s.config
    &&& forall|h: PotHash| #[trigger] s.pots.dom().contains(h) ==> {
        &&& s2.pots.dom().contains(h)
        &&& s2.pots[h] == (MoneyPot { is_active: s2.pots[h].is_active, ..s.pots[h] })
        &&& (!s.pots[h].is_active ==> !s2.pots[h].is_active)
    }
}

proof fn lemma_contributed_update(cs: Seq<(AccountId, Balance)>, i: int, v: Balance, a: AccountId)
    requires
        0 <= i < cs.len(),
    ensures
        contributed(cs.update(i, (cs[i].0, v)), a) == contributed(cs, a) + if cs[i].0 == a {
            v - cs[i].1
        } else {
            0
        },
    decreases cs.len(),
{
    let u = cs.update(i, (cs[i].0, v));
    if i == cs.len() - 1 {
        assert(u.drop_last() =~= cs.drop_last());
    } else {
        lemma_contributed_update(cs.drop_last(), i, v, a);
        assert(u.drop_last() =~= cs.drop_last().update(i, (cs[i].0, v)));
    }
}

proof fn lemma_contributed_push(cs: Seq<(AccountId, Balance)>, e: (AccountId, Balance), a: AccountId)
    ensures
        contributed(cs.push(e), a) == contributed(cs, a) + if e.0 == a { e.1 as int } else { 0 },
{
    assert(cs.push(e).drop_last() =~= cs);
}

/// A contribution adds its amount to what the contributor has put into the
/// pot, in its earlier entry where it has one, and changes no other
/// contributor's total.
pub proof fn law_contribution_adds_up(s: State, who: AccountId, h: PotHash, amount: Balance)
    requires
        !crate::state::add_balance_panics(s, Origin::Signed(who), h, amount),
        spec_add_balance(s, Origin::Signed(who), h, amount) is Ok,
    ensures
        forall|a: AccountId| #[trigger] contributed(contributions_of(spec_add_balance(s, Origin::Signed(who), h, amount)->Ok_0, h), a)
            == contributed(contributions_of(s, h), a) + if a == who { amount as int } else { 0 },
{
    let s2 = spec_add_balance(s, Origin::Signed(who), h, amount)->Ok_0;
    let cs0 = contributions_of(s, h);
    let cs = add_contribution(cs0, who, amount, s.config.max_money_pot_contributors)->Some_0;
    assert(contributions_of(s2, h) == cs);
    lemma_first_index_bounds(cs0, who);
    let i = crate::state::first_index(cs0, who);
    assert forall|a: AccountId| #[trigger] contributed(cs, a) == contributed(cs0, a) + if a == who {
        amount as int
    } else {
        0
    } by {
        if i >= 0 {
            lemma_contributed_update(cs0, i, (cs0[i].1 + amount) as Balance, a);
        } else {
            lemma_contributed_push(cs0, (who, amount), a);
        }
    }
}

// ---- the effect of a payout on the balances ----

proof fn lemma_pay_all_free(l: Ledger, ed: Balance, cs: Seq<(AccountId, Balance)>, to: AccountId, l2: Ledger)
    requires
        pay_all(l, ed, cs, to) == Ok::<Ledger, crate::types::BalancesError>(l2),
    ensures
        forall|a: AccountId| #[trigger] free_of(l2, a) == paid_out_free(l, cs, to, a),
    decreases cs.len(),
{
    if cs.len() > 0 {
        let t = cs.drop_last();
        let c = cs.last().0;
        let v = cs.last().1;
        let m = pay_all(l, ed, t, to)->Ok_0;
        assert(pay_all(l, ed, t, to) is Ok);
        lemma_pay_all_free(l, ed, t, to, m);
        assert(spec_transfer(m, ed, c, to, v) == Ok::<Ledger, crate::types::BalancesError>(l2));
        assert forall|a: AccountId| #[trigger] free_of(l2, a) == paid_out_free(l, cs, to, a) by {
            assert(free_of(m, a) == paid_out_free(l, t, to, a));
        }
    }
}

/// The money pot lock of `a` after what it contributed to `cs` has left it.
pub open spec fn released_lock(l: Ledger, cs: Seq<(AccountId, Balance)>, a: AccountId) -> int {
    let lock = account(l, a).lock;
    if lock >= contributed(cs, a) { lock - contributed(cs, a) } else { 0 }
}

proof fn lemma_release_all_lock(l: Ledger, cs: Seq<(AccountId, Balance)>)
    ensures
        forall|a: AccountId| #[trigger] account(release_all(l, cs), a).lock == released_lock(l, cs, a),
    decreases cs.len(),
{
    if cs.len() > 0 {
        let t = cs.drop_last();
        lemma_release_all_lock(l, t);
        lemma_contributed_nonneg(t);
        assert forall|a: AccountId| #[trigger] account(release_all(l, cs), a).lock == released_lock(l, cs, a) by {
            assert(account(release_all(l, t), a).lock == released_lock(l, t, a));
            assert(contributed(t, a) >= 0);
        }
    }
}

proof fn lemma_contributed_nonneg(cs: Seq<(AccountId, Balance)>)
    ensures
        forall|a: AccountId| #[trigger] contributed(cs, a) >= 0,
    decreases cs.len(),
{
    if cs.len() > 0 {
        lemma_contributed_nonneg(cs.drop_last());
        assert forall|a: AccountId| #[trigger] contributed(cs, a) >= 0 by {
            assert(contributed(cs.drop_last(), a) >= 0);
        }
    }
}

proof fn lemma_pay_all_lock(l: Ledger, ed: Balance, cs: Seq<(AccountId, Balance)>, to: AccountId, l2: Ledger)
    requires
        pay_all(l, ed, cs, to) == Ok::<Ledger, crate::types::BalancesError>(l2),
    ensures
        forall|a: AccountId| #[trigger] account(l2, a).lock == account(l, a).lock,
    decreases cs.len(),
{
    if cs.len() > 0 {
        let t = cs.drop_last();
        let m = pay_all(l, ed, t, to)->Ok_0;
        assert(pay_all(l, ed, t, to) is Ok);
        lemma_pay_all_lock(l, ed, t, to, m);
        assert(spec_transfer(m, ed, cs.last().0, to, cs.last().1) == Ok::<Ledger, crate::types::BalancesError>(l2));
        assert forall|a: AccountId| #[trigger] account(l2, a).lock == account(l, a).lock by {
            assert(account(m, a).lock == account(l, a).lock);
        }
    }
}

/// Paying out a pot moves every contribution from its contributor to the
/// receiver: each account loses what it contributed, the receiver also gains
/// the sum of all contributions, and no other free balance changes. Each
/// contributor's lock is lowered by what it contributed to this pot (down to
/// nothing), so what it locked for other pots stays locked.
pub proof fn law_payout(s: State, h: PotHash)
    requires
        spec_transfer_contributions(s, h) is Ok,
    ensures
        ({
            let s2 = spec_transfer_contributions(s, h)->Ok_0;
            let cs = contributions_of(s, h);
            let to = s.pots[h].receiver;
            &&& !s2.pots[h].is_active
            &&& forall|a: AccountId| #[trigger] free_of(s2.ledger, a) == paid_out_free(s.ledger, cs, to, a)
            &&& forall|a: AccountId| #[trigger] account(s2.ledger, a).lock == released_lock(s.ledger, cs, a)
        }),
{
    let cs = contributions_of(s, h);
    let to = s.pots[h].receiver;
    let u = release_all(s.ledger, cs);
    let l2 = spec_settle(s.ledger, s.ledger_ed, cs, to)->Ok_0;
    assert(pay_all(u, s.ledger_ed, cs, to) is Ok);
    lemma_pay_all_free(u, s.ledger_ed, cs, to, l2);
    assert forall|a: AccountId| #[trigger] free_of(l2, a) == paid_out_free(s.ledger, cs, to, a) by {
        lemma_release_all_free(s.ledger, cs, a);
        assert(free_of(l2, a) == paid_out_free(u, cs, to, a));
    }
    lemma_release_all_lock(s.ledger, cs);
    lemma_pay_all_lock(u, s.ledger_ed, cs, to, l2);
    assert forall|a: AccountId| #[trigger] account(l2, a).lock == released_lock(s.ledger, cs, a) by {
        assert(account(u, a).lock == released_lock(s.ledger, cs, a));
    }
}

/// A contribution that brings a pot to its end (its amount target reached, or
/// its end block come) closes the pot and pays all its contributions, this
/// one included, to the receiver; one that does not leaves the pot open,
/// moves no free balance and adds the contribution to the contributor's lock.
pub proof fn law_contribution(s: State, who: AccountId, h: PotHash, amount: Balance)
    requires
        spec_add_balance(s, Origin::Signed(who), h, amount) is Ok,
    ensures
        ({
            let s2 = spec_add_balance(s, Origin::Signed(who), h, amount)->Ok_0;
            let cs = contributions_of(s2, h);
            let pot = s.pots[h];
            let reached = match pot.end_time {
                Some(EndType::AmountReached { amount_type: _, amount: target }) => sum_amounts(cs) >= target,
                Some(EndType::Time(end)) => s.block_number >= end,
                None => false,
            };
            &&& s.pots.dom().contains(h)
            &&& pot.is_active
            &&& cs == add_contribution(contributions_of(s, h), who, amount, s.config.max_money_pot_contributors)->Some_0
            &&& s2.events.last() == (Event::MoneyAdded { ref_hash: h, who, amount })
            &&& reached ==> {
                &&& !s2.pots[h].is_active
                &&& forall|a: AccountId| #[trigger] free_of(s2.ledger, a) == paid_out_free(s.ledger, cs, pot.receiver, a)
            }
            &&& !reached ==> {
                &&& s2.pots[h] == pot
                &&& s2.ledger == spec_add_lock(s.ledger, who, amount)
                &&& forall|a: AccountId| #[trigger] free_of(s2.ledger, a) == free_of(s.ledger, a)
            }
        }),
{
    let s2 = spec_add_balance(s, Origin::Signed(who), h, amount)->Ok_0;
    let cs0 = contributions_of(s, h);
    let cs = add_contribution(cs0, who, amount, s.config.max_money_pot_contributors)->Some_0;
    let s1 = State {
        ledger: spec_add_lock(s.ledger, who, amount),
        contributions: s.contributions.insert(h, cs),
        ..s
    };
    assert(contributions_of(s2, h) == cs);
    let pot = s.pots[h];
    if spec_need_transfer(cs, pot, s.block_number) == Ok::<bool, Error>(true) {
        law_payout(s1, h);
        let s3 = spec_transfer_contributions(s1, h)->Ok_0;
        assert forall|a: AccountId| #[trigger] free_of(s2.ledger, a) == paid_out_free(s.ledger, cs, pot.receiver, a) by {
            assert(free_of(s3.ledger, a) == paid_out_free(s1.ledger, cs, pot.receiver, a));
            assert(free_of(s1.ledger, a) == free_of(s.ledger, a));
        }
    } else {
        assert forall|a: AccountId| #[trigger] free_of(s2.ledger, a) == free_of(s.ledger, a) by {}
    }
}

/// A contribution to a closed pot is refused with `MoneyPotIsClose` and changes nothing.
pub proof fn law_closed_pot_refuses(s: State, who: AccountId, h: PotHash, amount: Balance)
    requires
        s.pots.dom().contains(h),
        !s.pots[h].is_active,
    ensures
        spec_add_balance(s, Origin::Signed(who), h, amount) is Err,
        (crate::types::saturated_u32(amount % s.config.step_contribution) == 0
            && amount >= s.config.min_contribution) ==> spec_add_balance(s, Origin::Signed(who), h, amount)
            == Err::<State, DispatchError>(DispatchError::Module(Error::MoneyPotIsClose)),
{
}

/// A successful creation stores the new pot under the hash of its encoding,
/// indexes it under the next number, adds it to its owner's pots with no
/// contribution yet, and reports it.
pub proof fn law_creation_records_pot(s: State, owner: AccountId, receiver: AccountId, amount: Balance)
    requires
        consistent(s),
        s.count < u32::MAX,
        spec_create_with_limit_amount(s, Origin::Signed(owner), receiver, amount) is Ok,
    ensures
        ({
            let s2 = spec_create_with_limit_amount(s, Origin::Signed(owner), receiver, amount)->Ok_0;
            let pot = new_pot(
                owner,
                receiver,
                s.block_number,
                EndType::AmountReached { amount_type: AmountType::Native, amount },
            );
            let h = hash_of(pot);
            &&& s2.count == s.count + 1
            &&& s2.hashes == s.hashes.push(h)
            &&& s2.pots == s.pots.insert(h, pot)
            &&& owned_of(s2, owner) == owned_of(s, owner).push(h)
            &&& s2.events == s.events.push(Event::Created { ref_hash: h })
            &&& s2.ledger == s.ledger
            &&& s2.contributions == s.contributions
            &&& contributions_of(s2, h) == Seq::<(AccountId, Balance)>::empty()
            &&& s2.hashes[s.count as int] == h
        }),
{
}

/// A successful creation of a pot that ends on a block schedules its payout
/// on that block, under the pot's schedule name.
pub proof fn law_time_pot_scheduled(s: State, owner: AccountId, receiver: AccountId, end_block: BlockNumber)
    requires
        spec_create_with_limit_block(s, Origin::Signed(owner), receiver, end_block) is Ok,
    ensures
        ({
            let s2 = spec_create_with_limit_block(s, Origin::Signed(owner), receiver, end_block)->Ok_0;
            let h = hash_of(new_pot(owner, receiver, s.block_number, EndType::Time(end_block)));
            &&& s.block_number < end_block <= s.block_number + s.config.max_block_number_end_time
            &&& s2.pots[h].end_time == Some(EndType::Time(end_block))
            &&& s2.agenda == s.agenda.push(
                TaskView { name: crate::scale::schedule_name(h), when: end_block, call: h },
            )
        }),
{
}

/// Before its end block, a pot that ends on a block stays open whatever is contributed to it.
pub proof fn law_time_pot_stays_open(s: State, who: AccountId, h: PotHash, amount: Balance, end: BlockNumber)
    requires
        spec_add_balance(s, Origin::Signed(who), h, amount) is Ok,
        s.pots[h].end_time == Some(EndType::Time(end)),
        s.block_number < end,
    ensures
        spec_add_balance(s, Origin::Signed(who), h, amount)->Ok_0.pots[h].is_active,
{
}

/// On a block where the payout of the pot `h` is the only call due, the start
/// of the block takes it off the agenda and pays the pot out; where the payout
/// succeeds the pot is closed.
pub proof fn law_scheduled_payout_runs(s: State, h: PotHash)
    requires
        due_calls(s.agenda, s.block_number) == seq![h],
    ensures
        ({
            let s1 = State { agenda: not_due(s.agenda, s.block_number), ..s };
            &&& spec_on_initialize(s) == run_call(s1, h)
            &&& spec_transfer_contributions(s1, h) is Ok ==> !spec_on_initialize(s).pots[h].is_active
        }),
{
    let s1 = State { agenda: not_due(s.agenda, s.block_number), ..s };
    assert(seq![h].drop_last() =~= Seq::<PotHash>::empty());
    assert(run_calls(s1, seq![h]) == run_call(run_calls(s1, Seq::<PotHash>::empty()), h));
}

// ---- the consistency of the storage and the persistence of pots ----

proof fn lemma_owned_in_agree(hs: Seq<PotHash>, p1: Map<PotHash, MoneyPot>, p2: Map<PotHash, MoneyPot>, a: AccountId)
    requires
        forall|i: int| 0 <= i < hs.len() ==> p1[#[trigger] hs[i]].owner == p2[hs[i]].owner,
    ensures
        owned_in(hs, p1, a) == owned_in(hs, p2, a),
    decreases hs.len(),
{
    if hs.len() > 0 {
        let t = hs.drop_last();
        assert forall|i: int| 0 <= i < t.len() implies p1[#[trigger] t[i]].owner == p2[t[i]].owner by {
            assert(t[i] == hs[i]);
        }
        lemma_owned_in_agree(t, p1, p2, a);
        assert(p1[hs[hs.len() - 1]].owner == p2[hs[hs.len() - 1]].owner);
    }
}

proof fn lemma_owned_in_subset(hs: Seq<PotHash>, p: Map<PotHash, MoneyPot>, a: AccountId)
    ensures
        forall|i: int| 0 <= i < owned_in(hs, p, a).len() ==> hs.contains(#[trigger] owned_in(hs, p, a)[i]),
    decreases hs.len(),
{
    if hs.len() > 0 {
        let t = hs.drop_last();
        lemma_owned_in_subset(t, p, a);
        assert forall|i: int| 0 <= i < owned_in(hs, p, a).len() implies hs.contains(
            #[trigger] owned_in(hs, p, a)[i],
        ) by {
            if i < owned_in(t, p, a).len() {
                assert(owned_in(hs, p, a)[i] == owned_in(t, p, a)[i]);
                let j = choose|j: int| 0 <= j < t.len() && t[j] == owned_in(t, p, a)[i];
                assert(hs[j] == t[j]);
            } else {
                assert(owned_in(hs, p, a)[i] == hs[hs.len() - 1]);
            }
        }
    }
}

proof fn lemma_active_count_mono(p1: Map<PotHash, MoneyPot>, p2: Map<PotHash, MoneyPot>, hs: Seq<PotHash>)
    requires
        forall|i: int|
            0 <= i < hs.len() && p2.dom().contains(#[trigger] hs[i]) && p2[hs[i]].is_active ==> p1.dom().contains(
                hs[i],
            ) && p1[hs[i]].is_active,
    ensures
        active_count(p2, hs) <= active_count(p1, hs),
    decreases hs.len(),
{
    if hs.len() > 0 {
        let t = hs.drop_last();
        assert forall|i: int|
            0 <= i < t.len() && p2.dom().contains(#[trigger] t[i]) && p2[t[i]].is_active implies p1.dom().contains(
                t[i],
            ) && p1[t[i]].is_active by {
            assert(t[i] == hs[i]);
        }
        lemma_active_count_mono(p1, p2, t);
        let last = hs[hs.len() - 1];
        if p2.dom().contains(last) && p2[last].is_active {
            assert(p1.dom().contains(last) && p1[last].is_active);
        }
    }
}

/// A state that has the constants, count, indexed hashes, owned lists and
/// agenda of a consistent one, keeps its pots (closing some at most), and has
/// contributions only for stored pots and within bounds, is consistent.
pub proof fn lemma_consistent_frame(s: State, s2: State)
    requires
        consistent(s),
        s2.count == s.count,
        s2.hashes == s.hashes,
        s2.owned == s.owned,
        s2.agenda == s.agenda,
        s2.pots.dom() == s.pots.dom(),
        pots_kept(s, s2),
        forall|h: PotHash| #[trigger] s2.contributions.dom().contains(h) ==> s2.pots.dom().contains(h),
        forall|h: PotHash| #[trigger] contributions_of(s2, h).len() <= s2.config.max_money_pot_contributors,
        forall|h: PotHash| #[trigger] distinct_contributors(contributions_of(s2, h)),
    ensures
        consistent(s2),
{
    assert forall|h: PotHash| #[trigger] s2.pots.dom().contains(h) <==> s2.hashes.contains(h) by {
        assert(s.pots.dom().contains(h) <==> s.hashes.contains(h));
    }
    assert forall|a: AccountId| #[trigger] owned_of(s2, a) == owned_in(s2.hashes, s2.pots, a) by {
        assert(owned_of(s2, a) == owned_of(s, a));
        assert(owned_of(s, a) == owned_in(s.hashes, s.pots, a));
        assert forall|i: int| 0 <= i < s.hashes.len() implies s.pots[#[trigger] s.hashes[i]].owner
            == s2.pots[s.hashes[i]].owner by {
            assert(s.hashes.contains(s.hashes[i]));
            assert(s.pots.dom().contains(s.hashes[i]));
        }
        lemma_owned_in_agree(s.hashes, s.pots, s2.pots, a);
    }
    assert forall|a: AccountId|
        #[trigger] active_count(s2.pots, owned_of(s2, a)) <= s2.config.max_money_pot_currently_open by {
        assert(owned_of(s2, a) == owned_of(s, a));
        let hs = owned_of(s, a);
        assert forall|i: int|
            0 <= i < hs.len() && s2.pots.dom().contains(#[trigger] hs[i]) && s2.pots[hs[i]].is_active implies s.pots.dom().contains(
                hs[i],
            ) && s.pots[hs[i]].is_active by {}
        lemma_active_count_mono(s.pots, s2.pots, hs);
        assert(active_count(s.pots, owned_of(s, a)) <= s.config.max_money_pot_currently_open);
    }
    assert forall|i: int| 0 <= i < s2.agenda.len() implies s2.pots.dom().contains(#[trigger] s2.agenda[i].call) by {
        assert(s.pots.dom().contains(s.agenda[i].call));
    }
}

/// A state that differs from a consistent one only in its block, ledger,
/// events and the activity of its pots is consistent.
pub proof fn lemma_same_owned_keeps(s: State, s2: State)
    requires
        consistent(s),
        s2.config == s.config,
        s2.count == s.count,
        s2.hashes == s.hashes,
        s2.pots == s.pots,
        s2.owned == s.owned,
        s2.agenda == s.agenda,
        s2.contributions == s.contributions,
    ensures
        consistent(s2),
{
    assert forall|h: PotHash| #[trigger] contributions_of(s2, h).len() <= s2.config.max_money_pot_contributors by {
        assert(contributions_of(s2, h) == contributions_of(s, h));
    }
    assert forall|h: PotHash| #[trigger] distinct_contributors(contributions_of(s2, h)) by {
        assert(contributions_of(s2, h) == contributions_of(s, h));
    }
    lemma_consistent_frame(s, s2);
}

proof fn lemma_add_contribution_len(cs: Seq<(AccountId, Balance)>, who: AccountId, amount: Balance, max: u32)
    requires
        cs.len() <= max,
        add_contribution(cs, who, amount, max) is Some,
    ensures
        add_contribution(cs, who, amount, max)->Some_0.len() <= max,
{
    lemma_first_index_bounds(cs, who);
}

proof fn lemma_add_contribution_distinct(cs: Seq<(AccountId, Balance)>, who: AccountId, amount: Balance, max: u32)
    requires
        distinct_contributors(cs),
        add_contribution(cs, who, amount, max) is Some,
    ensures
        distinct_contributors(add_contribution(cs, who, amount, max)->Some_0),
{
    lemma_first_index_bounds(cs, who);
    let cs2 = add_contribution(cs, who, amount, max)->Some_0;
    let k = crate::state::first_index(cs, who);
    assert forall|i: int, j: int|
        0 <= i < cs2.len() && 0 <= j < cs2.len() && i != j implies #[trigger] cs2[i].0 != #[trigger] cs2[j].0 by {
        if k >= 0 {
            assert(cs2[i].0 == cs[i].0 && cs2[j].0 == cs[j].0);
        } else {
            if i < cs.len() && j < cs.len() {
                assert(cs2[i] == cs[i] && cs2[j] == cs[j]);
            } else if i < cs.len() {
                assert(cs2[i] == cs[i]);
            } else {
                assert(cs2[j] == cs[j]);
            }
        }
    }
}

proof fn lemma_agenda_push_keeps(s: State, t: TaskView)
    requires
        consistent(s),
        s.pots.dom().contains(t.call),
    ensures
        consistent(State { agenda: s.agenda.push(t), ..s }),
{
    let s2 = State { agenda: s.agenda.push(t), ..s };
    assert forall|i: int| 0 <= i < s2.agenda.len() implies s2.pots.dom().contains(#[trigger] s2.agenda[i].call) by {
        if i < s.agenda.len() {
            assert(s2.agenda[i] == s.agenda[i]);
        }
    }
    assert forall|a: AccountId| #[trigger] owned_of(s2, a) == owned_in(s2.hashes, s2.pots, a) by {
        assert(owned_of(s2, a) == owned_of(s, a));
    }
    assert forall|a: AccountId|
        #[trigger] active_count(s2.pots, owned_of(s2, a)) <= s2.config.max_money_pot_currently_open by {
        assert(owned_of(s2, a) == owned_of(s, a));
    }
    assert forall|h: PotHash| #[trigger] contributions_of(s2, h).len() <= s2.config.max_money_pot_contributors by {
        assert(contributions_of(s2, h) == contributions_of(s, h));
    }
    assert forall|h: PotHash| #[trigger] distinct_contributors(contributions_of(s2, h)) by {
        assert(contributions_of(s2, h) == contributions_of(s, h));
    }
}

pub proof fn lemma_control_creation_keeps(s: State, pot: MoneyPot)
    requires
        consistent(s),
        s.count < u32::MAX,
        spec_control_creation(s, pot) is Ok,
    ensures
        consistent(spec_control_creation(s, pot)->Ok_0.0),
        pots_kept(s, spec_control_creation(s, pot)->Ok_0.0),
        spec_control_creation(s, pot)->Ok_0.0.agenda == s.agenda,
        spec_control_creation(s, pot)->Ok_0.0.pots.dom().contains(spec_control_creation(s, pot)->Ok_0.1),
{
    let (s2, h) = spec_control_creation(s, pot)->Ok_0;
    assert(!s.hashes.contains(h));
    assert forall|i: int, j: int|
        0 <= i < s2.hashes.len() && 0 <= j < s2.hashes.len() && i != j implies #[trigger] s2.hashes[i]
        != #[trigger] s2.hashes[j] by {
        if i < s.hashes.len() && j < s.hashes.len() {
            assert(s2.hashes[i] == s.hashes[i] && s2.hashes[j] == s.hashes[j]);
        } else if i < s.hashes.len() {
            assert(s2.hashes[i] == s.hashes[i]);
            assert(s.hashes.contains(s.hashes[i]));
        } else {
            assert(s2.hashes[j] == s.hashes[j]);
            assert(s.hashes.contains(s.hashes[j]));
        }
    }
    assert forall|g: PotHash| #[trigger] s2.pots.dom().contains(g) <==> s2.hashes.contains(g) by {
        if s2.hashes.contains(g) && g != h {
            let k = choose|k: int| 0 <= k < s2.hashes.len() && s2.hashes[k] == g;
            assert(s.hashes[k] == g);
            assert(s.hashes.contains(g));
        }
        if s.hashes.contains(g) {
            let k = choose|k: int| 0 <= k < s.hashes.len() && s.hashes[k] == g;
            assert(s2.hashes[k] == g);
        }
        assert(s2.hashes[s.hashes.len() as int] == h);
    }
    // pots other than `h` are as they were
    assert forall|i: int| 0 <= i < s.hashes.len() implies s.pots[#[trigger] s.hashes[i]].owner
        == s2.pots[s.hashes[i]].owner by {
        assert(s.hashes.contains(s.hashes[i]));
    }
    assert forall|a: AccountId| #[trigger] owned_of(s2, a) == owned_in(s2.hashes, s2.pots, a) by {
        lemma_owned_in_agree(s.hashes, s.pots, s2.pots, a);
        assert(s2.hashes.drop_last() =~= s.hashes);
        assert(owned_of(s, a) == owned_in(s.hashes, s.pots, a));
    }
    assert forall|a: AccountId|
        #[trigger] active_count(s2.pots, owned_of(s2, a)) <= s2.config.max_money_pot_currently_open by {
        let hs = owned_of(s, a);
        assert(hs == owned_in(s.hashes, s.pots, a));
        lemma_owned_in_subset(s.hashes, s.pots, a);
        assert forall|i: int| 0 <= i < hs.len() implies #[trigger] hs[i] != h by {
            assert(s.hashes.contains(hs[i]));
        }
        assert forall|i: int|
            0 <= i < hs.len() && s2.pots.dom().contains(#[trigger] hs[i]) && s2.pots[hs[i]].is_active implies s.pots.dom().contains(
                hs[i],
            ) && s.pots[hs[i]].is_active by {}
        lemma_active_count_mono(s.pots, s2.pots, hs);
        if a == pot.owner {
            assert(owned_of(s2, a).drop_last() =~= hs);
        } else {
            assert(owned_of(s2, a) == hs);
            assert(active_count(s.pots, owned_of(s, a)) <= s.config.max_money_pot_currently_open);
        }
    }
    assert forall|i: int| 0 <= i < s2.agenda.len() implies s2.pots.dom().contains(#[trigger] s2.agenda[i].call) by {
        assert(s2.agenda[i] == s.agenda[i]);
    }
    assert forall|g: PotHash| #[trigger] contributions_of(s2, g).len() <= s2.config.max_money_pot_contributors by {
        assert(contributions_of(s2, g) == contributions_of(s, g));
    }
    assert forall|g: PotHash| #[trigger] distinct_contributors(contributions_of(s2, g)) by {
        assert(contributions_of(s2, g) == contributions_of(s, g));
    }
}

proof fn lemma_transfer_contributions_keeps(s: State, h: PotHash)
    requires
        consistent(s),
        spec_transfer_contributions(s, h) is Ok,
    ensures
        consistent(spec_transfer_contributions(s, h)->Ok_0),
        pots_kept(s, spec_transfer_contributions(s, h)->Ok_0),
{
    let s2 = spec_transfer_contributions(s, h)->Ok_0;
    assert(s2.pots.dom() =~= s.pots.dom());
    assert forall|g: PotHash| #[trigger] contributions_of(s2, g).len() <= s2.config.max_money_pot_contributors by {
        assert(contributions_of(s2, g) == contributions_of(s, g));
    }
    assert forall|g: PotHash| #[trigger] distinct_contributors(contributions_of(s2, g)) by {
        assert(contributions_of(s2, g) == contributions_of(s, g));
    }
    lemma_consistent_frame(s, s2);
}

proof fn lemma_run_calls_keeps(s: State, hs: Seq<PotHash>)
    requires
        consistent(s),
    ensures
        consistent(run_calls(s, hs)),
        pots_kept(s, run_calls(s, hs)),
    decreases hs.len(),
{
    if hs.len() > 0 {
        let s1 = run_calls(s, hs.drop_last());
        lemma_run_calls_keeps(s, hs.drop_last());
        if spec_transfer_contributions(s1, hs.last()) is Ok {
            lemma_transfer_contributions_keeps(s1, hs.last());
        }
    }
}

/// Every call keeps the storage consistent, keeps every pot with its owner,
/// receiver, start and end, and never reopens a closed pot.
pub proof fn law_create_with_limit_amount_keeps(s: State, origin: Origin, receiver: AccountId, amount: Balance)
    requires
        consistent(s),
        s.count < u32::MAX,
        spec_create_with_limit_amount(s, origin, receiver, amount) is Ok,
    ensures
        consistent(spec_create_with_limit_amount(s, origin, receiver, amount)->Ok_0),
        pots_kept(s, spec_create_with_limit_amount(s, origin, receiver, amount)->Ok_0),
{
    let sender = origin->Signed_0;
    let pot = new_pot(sender, receiver, s.block_number, EndType::AmountReached { amount_type: AmountType::Native, amount });
    lemma_control_creation_keeps(s, pot);
    let s2 = spec_control_creation(s, pot)->Ok_0.0;
    let s3 = spec_create_with_limit_amount(s, origin, receiver, amount)->Ok_0;
    lemma_same_owned_keeps(s2, s3);
}

/// Every call keeps the storage consistent, keeps every pot with its owner,
/// receiver, start and end, and never reopens a closed pot.
pub proof fn law_create_with_limit_block_keeps(s: State, origin: Origin, receiver: AccountId, end_block: BlockNumber)
    requires
        consistent(s),
        s.count < u32::MAX,
        spec_create_with_limit_block(s, origin, receiver, end_block) is Ok,
    ensures
        consistent(spec_create_with_limit_block(s, origin, receiver, end_block)->Ok_0),
        pots_kept(s, spec_create_with_limit_block(s, origin, receiver, end_block)->Ok_0),
{
    let sender = origin->Signed_0;
    let pot = new_pot(sender, receiver, s.block_number, EndType::Time(end_block));
    lemma_control_creation_keeps(s, pot);
    let (s2, h) = spec_control_creation(s, pot)->Ok_0;
    let t = TaskView { name: crate::scale::schedule_name(h), when: end_block, call: h };
    lemma_agenda_push_keeps(s2, t);
    let s4 = State { agenda: s2.agenda.push(t), ..s2 };
    let s3 = spec_create_with_limit_block(s, origin, receiver, end_block)->Ok_0;
    lemma_same_owned_keeps(s4, s3);
}

/// Every call keeps the storage consistent, keeps every pot with its owner,
/// receiver, start and end, and never reopens a closed pot.
pub proof fn law_add_balance_keeps(s: State, origin: Origin, h: PotHash, amount: Balance)
    requires
        consistent(s),
        spec_add_balance(s, origin, h, amount) is Ok,
    ensures
        consistent(spec_add_balance(s, origin, h, amount)->Ok_0),
        pots_kept(s, spec_add_balance(s, origin, h, amount)->Ok_0),
{
    let who = origin->Signed_0;
    let max = s.config.max_money_pot_contributors;
    let cs0 = contributions_of(s, h);
    let cs = add_contribution(cs0, who, amount, max)->Some_0;
    let s1 = State {
        ledger: spec_add_lock(s.ledger, who, amount),
        contributions: s.contributions.insert(h, cs),
        ..s
    };
    lemma_add_contribution_len(cs0, who, amount, max);
    assert forall|g: PotHash| #[trigger] contributions_of(s1, g).len() <= s1.config.max_money_pot_contributors by {
        if g != h {
            assert(contributions_of(s1, g) == contributions_of(s, g));
        }
    }
    lemma_add_contribution_distinct(cs0, who, amount, max);
    assert forall|g: PotHash| #[trigger] distinct_contributors(contributions_of(s1, g)) by {
        if g != h {
            assert(contributions_of(s1, g) == contributions_of(s, g));
        }
    }
    lemma_consistent_frame(s, s1);
    let s3 = spec_add_balance(s, origin, h, amount)->Ok_0;
    if spec_need_transfer(cs, s.pots[h], s.block_number) == Ok::<bool, Error>(true) {
        lemma_transfer_contributions_keeps(s1, h);
        let s2 = spec_transfer_contributions(s1, h)->Ok_0;
        lemma_same_owned_keeps(s2, s3);
    } else {
        lemma_same_owned_keeps(s1, s3);
    }
}

/// Every call keeps the storage consistent, keeps every pot with its owner,
/// receiver, start and end, and never reopens a closed pot.
pub proof fn law_transfer_contributions_keeps(s: State, h: PotHash)
    requires
        consistent(s),
        spec_transfer_contributions(s, h) is Ok,
    ensures
        consistent(spec_transfer_contributions(s, h)->Ok_0),
        pots_kept(s, spec_transfer_contributions(s, h)->Ok_0),
{
    lemma_transfer_contributions_keeps(s, h);
}

/// The start of a block keeps the storage consistent, keeps every pot with
/// its owner, receiver, start and end, and never reopens a closed pot.
pub proof fn law_on_initialize_keeps(s: State)
    requires
        consistent(s),
    ensures
        consistent(spec_on_initialize(s)),
        pots_kept(s, spec_on_initialize(s)),
{
    let s1 = State { agenda: not_due(s.agenda, s.block_number), ..s };
    lemma_not_due_keeps(s);
    lemma_run_calls_keeps(s1, due_calls(s.agenda, s.block_number));
}

/// Removing the calls due on the current block from the agenda keeps the storage consistent.
pub proof fn lemma_not_due_keeps(s: State)
    requires
        consistent(s),
    ensures
        consistent(State { agenda: not_due(s.agenda, s.block_number), ..s }),
{
    let s1 = State { agenda: not_due(s.agenda, s.block_number), ..s };
    lemma_not_due_subset(s.agenda, s.block_number);
    assert forall|i: int| 0 <= i < s1.agenda.len() implies s1.pots.dom().contains(#[trigger] s1.agenda[i].call) by {
        let j = choose|j: int| 0 <= j < s.agenda.len() && s.agenda[j] == not_due(s.agenda, s.block_number)[i];
        assert(s.pots.dom().contains(s.agenda[j].call));
    }
    assert forall|a: AccountId| #[trigger] owned_of(s1, a) == owned_in(s1.hashes, s1.pots, a) by {
        assert(owned_of(s1, a) == owned_of(s, a));
    }
    assert forall|a: AccountId|
        #[trigger] active_count(s1.pots, owned_of(s1, a)) <= s1.config.max_money_pot_currently_open by {
        assert(owned_of(s1, a) == owned_of(s, a));
    }
    assert forall|g: PotHash| #[trigger] contributions_of(s1, g).len() <= s1.config.max_money_pot_contributors by {
        assert(contributions_of(s1, g) == contributions_of(s, g));
    }
    assert forall|g: PotHash| #[trigger] distinct_contributors(contributions_of(s1, g)) by {
        assert(contributions_of(s1, g) == contributions_of(s, g));
    }
}

// ---- the money pot lock covers what is held in open pots ----

/// What `a` has put into the pot `g` while it is open; nothing once it is closed.
pub open spec fn held_for(s: State, g: PotHash, a: AccountId) -> int {
    if s.pots.dom().contains(g) && s.pots[g].is_active {
        contributed(contributions_of(s, g), a)
    } else {
        0
    }
}

/// What `a` has put into the open pots among `hs`.
pub open spec fn held_in(s: State, hs: Seq<PotHash>, a: AccountId) -> int
    decreases hs.len(),
{
    if hs.len() == 0 {
        0
    } else {
        held_in(s, hs.drop_last(), a) + held_for(s, hs.last(), a)
    }
}

/// Every account's money pot lock covers what it has put into pots that have
/// not been paid out yet.
pub open spec fn locks_cover(s: State) -> bool {
    forall|a: AccountId| #[trigger] account(s.ledger, a).lock >= held_in(s, s.hashes, a)
}

proof fn lemma_held_in_swap(s: State, s2: State, hs: Seq<PotHash>, h: PotHash, a: AccountId)
    requires
        forall|i: int, j: int|
            #![trigger hs[i], hs[j]]
            0 <= i < hs.len() && 0 <= j < hs.len() && i != j ==> hs[i] != hs[j],
        forall|g: PotHash| g != h ==> #[trigger] held_for(s2, g, a) == held_for(s, g, a),
    ensures
        held_in(s2, hs, a) == held_in(s, hs, a) + if hs.contains(h) {
            held_for(s2, h, a) - held_for(s, h, a)
        } else {
            0
        },
    decreases hs.len(),
{
    if hs.len() > 0 {
        let t = hs.drop_last();
        let last = hs[hs.len() - 1];
        assert forall|i: int, j: int|
            #![trigger t[i], t[j]]
            0 <= i < t.len() && 0 <= j < t.len() && i != j implies t[i] != t[j] by {
            assert(t[i] == hs[i] && t[j] == hs[j]);
        }
        lemma_held_in_swap(s, s2, t, h, a);
        if last == h {
            assert(!t.contains(h)) by {
                if t.contains(h) {
                    let k = choose|k: int| 0 <= k < t.len() && t[k] == h;
                    assert(hs[k] == h && hs[hs.len() - 1] == h);
                }
            }
            assert(hs.contains(h));
        } else {
            assert(hs.contains(h) <==> t.contains(h)) by {
                if hs.contains(h) {
                    let k = choose|k: int| 0 <= k < hs.len() && hs[k] == h;
                    assert(k < t.len());
                    assert(t[k] == h);
                }
                if t.contains(h) {
                    let k = choose|k: int| 0 <= k < t.len() && t[k] == h;
                    assert(hs[k] == h);
                }
            }
        }
    }
}

/// Paying out an open pot keeps every account's lock covering what it still
/// has in open pots: the lock loses at most what the account had in this pot.
pub proof fn law_payout_keeps_locks(s: State, h: PotHash)
    requires
        consistent(s),
        locks_cover(s),
        s.pots.dom().contains(h),
        s.pots[h].is_active,
        spec_transfer_contributions(s, h) is Ok,
    ensures
        locks_cover(spec_transfer_contributions(s, h)->Ok_0),
{
    let s2 = spec_transfer_contributions(s, h)->Ok_0;
    let cs = contributions_of(s, h);
    law_payout(s, h);
    assert(s.hashes.contains(h));
    assert forall|a: AccountId| #[trigger] account(s2.ledger, a).lock >= held_in(s2, s2.hashes, a) by {
        assert forall|g: PotHash| g != h implies #[trigger] held_for(s2, g, a) == held_for(s, g, a) by {
            assert(contributions_of(s2, g) == contributions_of(s, g));
        }
        lemma_held_in_swap(s, s2, s.hashes, h, a);
        assert(held_for(s2, h, a) == 0);
        assert(held_for(s, h, a) == contributed(cs, a));
        assert(account(s2.ledger, a).lock == released_lock(s.ledger, cs, a));
        assert(account(s.ledger, a).lock >= held_in(s, s.hashes, a));
    }
}

/// A contribution keeps every account's lock covering what it has in open
/// pots: the contributor's lock grows by the amount that its share of the pot
/// grows by, and where the pot pays out, the lock loses at most that share.
/// (Where the lock would pass the largest balance it stops there; that case is
/// left out.)
pub proof fn law_contribution_keeps_locks(s: State, who: AccountId, h: PotHash, amount: Balance)
    requires
        consistent(s),
        locks_cover(s),
        !crate::state::add_balance_panics(s, Origin::Signed(who), h, amount),
        account(s.ledger, who).lock + amount <= u64::MAX,
        spec_add_balance(s, Origin::Signed(who), h, amount) is Ok,
    ensures
        locks_cover(spec_add_balance(s, Origin::Signed(who), h, amount)->Ok_0),
{
    let max = s.config.max_money_pot_contributors;
    let cs0 = contributions_of(s, h);
    let cs = add_contribution(cs0, who, amount, max)->Some_0;
    let s1 = State {
        ledger: spec_add_lock(s.ledger, who, amount),
        contributions: s.contributions.insert(h, cs),
        ..s
    };
    law_contribution_adds_up(s, who, h, amount);
    let s2 = spec_add_balance(s, Origin::Signed(who), h, amount)->Ok_0;
    assert(contributions_of(s1, h) == cs);
    assert(contributions_of(s2, h) == cs);
    assert(s.hashes.contains(h));
    assert forall|a: AccountId| #[trigger] account(s1.ledger, a).lock >= held_in(s1, s1.hashes, a) by {
        assert forall|g: PotHash| g != h implies #[trigger] held_for(s1, g, a) == held_for(s, g, a) by {
            assert(contributions_of(s1, g) == contributions_of(s, g));
        }
        lemma_held_in_swap(s, s1, s.hashes, h, a);
        assert(contributed(cs, a) == contributed(cs0, a) + if a == who { amount as int } else { 0 });
        assert(account(s.ledger, a).lock >= held_in(s, s.hashes, a));
    }
    if spec_need_transfer(cs, s.pots[h], s.block_number) == Ok::<bool, Error>(true) {
        lemma_add_contribution_len(cs0, who, amount, max);
        assert forall|g: PotHash| #[trigger] contributions_of(s1, g).len() <= s1.config.max_money_pot_contributors by {
            if g != h {
                assert(contributions_of(s1, g) == contributions_of(s, g));
            }
        }
        lemma_add_contribution_distinct(cs0, who, amount, max);
        assert forall|g: PotHash| #[trigger] distinct_contributors(contributions_of(s1, g)) by {
            if g != h {
                assert(contributions_of(s1, g) == contributions_of(s, g));
            }
        }
        lemma_consistent_frame(s, s1);
        law_payout_keeps_locks(s1, h);
        let s3 = spec_transfer_contributions(s1, h)->Ok_0;
        assert forall|a: AccountId| #[trigger] account(s2.ledger, a).lock >= held_in(s2, s2.hashes, a) by {
            assert(account(s3.ledger, a).lock >= held_in(s3, s3.hashes, a));
            assert(held_in(s2, s2.hashes, a) == held_in(s3, s3.hashes, a)) by {
                assert forall|g: PotHash| g != h implies #[trigger] held_for(s2, g, a) == held_for(s3, g, a) by {
                    assert(contributions_of(s2, g) == contributions_of(s3, g));
                }
                lemma_held_in_swap(s3, s2, s3.hashes, h, a);
            }
        }
    } else {
        assert forall|a: AccountId| #[trigger] account(s2.ledger, a).lock >= held_in(s2, s2.hashes, a) by {
            assert(account(s1.ledger, a).lock >= held_in(s1, s1.hashes, a));
            assert(held_in(s2, s2.hashes, a) == held_in(s1, s1.hashes, a)) by {
                assert forall|g: PotHash| g != h implies #[trigger] held_for(s2, g, a) == held_for(s1, g, a) by {
                    assert(contributions_of(s2, g) == contributions_of(s1, g));
                }
                lemma_held_in_swap(s1, s2, s1.hashes, h, a);
            }
        }
    }
}

/// Storing a new pot keeps every account's lock covering what it has in open
/// pots: the new pot holds nothing yet.
pub proof fn law_creation_keeps_locks(s: State, pot: MoneyPot)
    requires
        consistent(s),
        locks_cover(s),
        spec_control_creation(s, pot) is Ok,
    ensures
        locks_cover(spec_control_creation(s, pot)->Ok_0.0),
{
    let (s2, h) = spec_control_creation(s, pot)->Ok_0;
    assert(!s.hashes.contains(h));
    assert(!s.contributions.dom().contains(h));
    assert(contributions_of(s2, h) =~= Seq::<(AccountId, Balance)>::empty());
    assert forall|a: AccountId| #[trigger] account(s2.ledger, a).lock >= held_in(s2, s2.hashes, a) by {
        assert forall|g: PotHash| g != h implies #[trigger] held_for(s2, g, a) == held_for(s, g, a) by {
            assert(contributions_of(s2, g) == contributions_of(s, g));
        }
        lemma_held_in_swap(s, s2, s.hashes, h, a);
        assert(s2.hashes.drop_last() =~= s.hashes);
        assert(held_in(s2, s.hashes, a) == held_in(s, s.hashes, a));
        assert(contributed(contributions_of(s2, h), a) == 0);
        assert(account(s.ledger, a).lock >= held_in(s, s.hashes, a));
    }
}

// ---- pots are kept by every call ----

proof fn lemma_pots_kept_trans(s1: State, s2: State, s3: State)
    requires
        pots_kept(s1, s2),
        pots_kept(s2, s3),
    ensures
        pots_kept(s1, s3),
{
}

proof fn lemma_transfer_keeps_pots(s: State, h: PotHash)
    ensures
        spec_transfer_contributions(s, h) is Ok ==> pots_kept(s, spec_transfer_contributions(s, h)->Ok_0),
        pots_kept(s, crate::state::spec_transfer_contributions_in_place(s, h).0),
{
}

proof fn lemma_run_calls_keeps_pots(s: State, hs: Seq<PotHash>)
    ensures
        pots_kept(s, run_calls(s, hs)),
    decreases hs.len(),
{
    if hs.len() > 0 {
        let s1 = run_calls(s, hs.drop_last());
        lemma_run_calls_keeps_pots(s, hs.drop_last());
        lemma_transfer_keeps_pots(s1, hs.last());
        lemma_pots_kept_trans(s, s1, run_calls(s, hs));
    }
}

/// Whatever state it starts from, every call that succeeds (and the start of
/// a block, and a payout called on its own, whatever their outcome) keeps
/// every pot with its owner, receiver, start and end, and never reopens a
/// closed pot; a refused call leaves the state as it was. So a pot once
/// closed stays stored and closed, and every later contribution to it is
/// refused (`law_closed_pot_refuses`).
pub proof fn law_calls_keep_pots(
    s: State,
    origin: Origin,
    receiver: AccountId,
    amount: Balance,
    end_block: BlockNumber,
    h: PotHash,
)
    ensures
        spec_create_with_limit_amount(s, origin, receiver, amount) is Ok ==> pots_kept(
            s,
            spec_create_with_limit_amount(s, origin, receiver, amount)->Ok_0,
        ),
        spec_create_with_limit_block(s, origin, receiver, end_block) is Ok ==> pots_kept(
            s,
            spec_create_with_limit_block(s, origin, receiver, end_block)->Ok_0,
        ),
        spec_add_balance(s, origin, h, amount) is Ok ==> pots_kept(s, spec_add_balance(s, origin, h, amount)->Ok_0),
        spec_transfer_contributions(s, h) is Ok ==> pots_kept(s, spec_transfer_contributions(s, h)->Ok_0),
        pots_kept(s, crate::state::spec_transfer_contributions_in_place(s, h).0),
        pots_kept(s, spec_on_initialize(s)),
{
    lemma_transfer_keeps_pots(s, h);
    let s1 = State { agenda: not_due(s.agenda, s.block_number), ..s };
    lemma_run_calls_keeps_pots(s1, due_calls(s.agenda, s.block_number));
    if spec_add_balance(s, origin, h, amount) is Ok {
        let who = origin->Signed_0;
        let cs = add_contribution(contributions_of(s, h), who, amount, s.config.max_money_pot_contributors)->Some_0;
        let s2 = State {
            ledger: spec_add_lock(s.ledger, who, amount),
            contributions: s.contributions.insert(h, cs),
            ..s
        };
        lemma_transfer_keeps_pots(s2, h);
    }
}

// ---- the start of a block, the creations and payouts succeed when they should ----

proof fn lemma_run_calls_split(s: State, hs: Seq<PotHash>, k: int)
    requires
        0 <= k <= hs.len(),
    ensures
        run_calls(s, hs) == run_calls(run_calls(s, hs.take(k)), hs.skip(k)),
    decreases hs.len(),
{
    if k == hs.len() {
        assert(hs.take(k) =~= hs);
        assert(hs.skip(k).len() == 0);
    } else {
        let t = hs.drop_last();
        assert(t.take(k) =~= hs.take(k));
        lemma_run_calls_split(s, t, k);
        assert(hs.skip(k).drop_last() =~= t.skip(k));
        assert(hs.skip(k).last() == hs.last());
    }
}

/// At the start of a block the payouts due on it run one after the other
/// (`law_due_calls_are_the_due_tasks` says which): each pot whose payout
/// succeeds in its turn is closed, and stays stored and closed, once the
/// block has started.
pub proof fn law_on_initialize_closes_paid_pots(s: State, k: int)
    requires
        0 <= k < due_calls(s.agenda, s.block_number).len(),
        spec_transfer_contributions(
            run_calls(
                State { agenda: not_due(s.agenda, s.block_number), ..s },
                due_calls(s.agenda, s.block_number).take(k),
            ),
            due_calls(s.agenda, s.block_number)[k],
        ) is Ok,
    ensures
        spec_on_initialize(s).pots.dom().contains(due_calls(s.agenda, s.block_number)[k]),
        !spec_on_initialize(s).pots[due_calls(s.agenda, s.block_number)[k]].is_active,
{
    let s1 = State { agenda: not_due(s.agenda, s.block_number), ..s };
    let due = due_calls(s.agenda, s.block_number);
    let h = due[k];
    lemma_run_calls_split(s1, due, k + 1);
    crate::state::lemma_take_succ(due, k);
    let mid = run_calls(s1, due.take(k + 1));
    assert(mid == run_call(run_calls(s1, due.take(k)), h));
    assert(mid.pots.dom().contains(h) && !mid.pots[h].is_active);
    lemma_run_calls_keeps_pots(mid, due.skip(k + 1));
}

/// A signed account opens a pot with an amount target whenever the target is
/// above zero and at least the least contribution, the account may open one
/// more pot and no pot with the new pot's hash is stored. The target need
/// not be a multiple of the contribution step, which applies to contributions.
pub proof fn law_create_with_limit_amount_succeeds(s: State, owner: AccountId, receiver: AccountId, amount: Balance)
    requires
        crate::types::saturated_u32(amount) > 0,
        amount >= s.config.min_contribution,
        crate::state::may_open(s, owner),
        !s.pots.dom().contains(
            hash_of(
                MoneyPot {
                    owner,
                    receiver,
                    start_time: s.block_number,
                    end_time: Some(EndType::AmountReached { amount_type: AmountType::Native, amount }),
                    is_active: true,
                },
            ),
        ),
    ensures
        spec_create_with_limit_amount(s, Origin::Signed(owner), receiver, amount) is Ok,
{
}

/// A signed account opens a pot that ends on `end_block`, with its payout
/// scheduled for that block, whenever the block is after the current one and
/// within the longest lifetime, the account may open one more pot, no pot
/// with the new pot's hash is stored and no scheduled call has its schedule
/// name, whatever other calls are scheduled on that block.
pub proof fn law_create_with_limit_block_succeeds(
    s: State,
    owner: AccountId,
    receiver: AccountId,
    end_block: BlockNumber,
)
    requires
        s.block_number < end_block,
        end_block <= s.block_number + s.config.max_block_number_end_time,
        crate::state::may_open(s, owner),
        !s.pots.dom().contains(
            hash_of(
                MoneyPot {
                    owner,
                    receiver,
                    start_time: s.block_number,
                    end_time: Some(EndType::Time(end_block)),
                    is_active: true,
                },
            ),
        ),
        forall|i: int|
            0 <= i < s.agenda.len() ==> #[trigger] s.agenda[i].name != crate::scale::schedule_name(
                hash_of(
                    MoneyPot {
                        owner,
                        receiver,
                        start_time: s.block_number,
                        end_time: Some(EndType::Time(end_block)),
                        is_active: true,
                    },
                ),
            ),
    ensures
        spec_create_with_limit_block(s, Origin::Signed(owner), receiver, end_block) is Ok,
        ({
            let h = hash_of(
                MoneyPot {
                    owner,
                    receiver,
                    start_time: s.block_number,
                    end_time: Some(EndType::Time(end_block)),
                    is_active: true,
                },
            );
            spec_create_with_limit_block(s, Origin::Signed(owner), receiver, end_block)->Ok_0.agenda == s.agenda.push(
                TaskView { name: crate::scale::schedule_name(h), when: end_block, call: h },
            )
        }),
{
}

/// A transfer succeeds whenever the sender holds the value, keeps its lock
/// and the existential deposit after it, and the receiver ends with at least
/// the existential deposit and no overflow, whatever the receiver held
/// before (an empty account included). It moves the value and nothing else.
pub proof fn law_transfer_succeeds(l: Ledger, ed: Balance, from: AccountId, to: AccountId, value: Balance)
    requires
        from != to,
        free_of(l, from) >= value,
        free_of(l, from) - value >= account(l, from).lock,
        free_of(l, from) - value >= ed,
        free_of(l, to) + value >= ed,
        free_of(l, to) + value <= u64::MAX,
    ensures
        spec_transfer(l, ed, from, to, value) is Ok,
        ({
            let l2 = spec_transfer(l, ed, from, to, value)->Ok_0;
            &&& free_of(l2, from) == free_of(l, from) - value
            &&& free_of(l2, to) == free_of(l, to) + value
            &&& forall|a: AccountId| #[trigger] account(l2, a).lock == account(l, a).lock
            &&& forall|a: AccountId| a != from && a != to ==> #[trigger] account(l2, a) == account(l, a)
        }),
{
}

/// A payout succeeds exactly when every contribution is covered by its
/// contributor's free balance and the transfers of all of them, after the
/// locks are released, succeed one after the other; what the receiver held
/// before is no condition. Made step by step, it succeeds on the same inputs
/// and ends on the same ledger.
pub proof fn law_settle_succeeds(l: Ledger, ed: Balance, cs: Seq<(AccountId, Balance)>, to: AccountId)
    ensures
        spec_settle(l, ed, cs, to) is Ok <==> crate::state::covered(l, cs) && pay_all(
            release_all(l, cs),
            ed,
            cs,
            to,
        ) is Ok,
        spec_settle(l, ed, cs, to) is Ok ==> spec_settle(l, ed, cs, to)->Ok_0 == pay_all(
            release_all(l, cs),
            ed,
            cs,
            to,
        )->Ok_0,
        crate::state::spec_settle_in_place(l, ed, cs, to).1 is Ok <==> spec_settle(l, ed, cs, to) is Ok,
        spec_settle(l, ed, cs, to) is Ok ==> crate::state::spec_settle_in_place(l, ed, cs, to).0 == spec_settle(
            l,
            ed,
            cs,
            to,
        )->Ok_0,
{
    lemma_pay_until_agrees(release_all(l, cs), ed, cs, to);
}

proof fn lemma_pay_until_agrees(l: Ledger, ed: Balance, cs: Seq<(AccountId, Balance)>, to: AccountId)
    ensures
        crate::state::pay_until(l, ed, cs, to).1 is Ok <==> pay_all(l, ed, cs, to) is Ok,
        pay_all(l, ed, cs, to) is Ok ==> crate::state::pay_until(l, ed, cs, to).0 == pay_all(l, ed, cs, to)->Ok_0,
    decreases cs.len(),
{
    if cs.len() > 0 {
        lemma_pay_until_agrees(l, ed, cs.drop_last(), to);
    }
}

/// A pot with one contribution is paid out whenever the contributor, once the
/// contribution has left its lock, can spare it keeping its remaining lock
/// and the existential deposit, and the receiver ends with at least the
/// existential deposit, whatever it held before: the contribution moves to
/// the receiver and leaves the contributor's lock; and so it is when the
/// payout is made step by step.
pub proof fn law_single_payout(l: Ledger, ed: Balance, c: AccountId, v: Balance, to: AccountId)
    requires
        c != to,
        free_of(l, c) >= v,
        free_of(l, c) - v >= (if account(l, c).lock <= v { 0 } else { account(l, c).lock - v }),
        free_of(l, c) - v >= ed,
        free_of(l, to) + v >= ed,
        free_of(l, to) + v <= u64::MAX,
    ensures
        spec_settle(l, ed, seq![(c, v)], to) is Ok,
        crate::state::spec_settle_in_place(l, ed, seq![(c, v)], to).1 is Ok,
        ({
            let l2 = spec_settle(l, ed, seq![(c, v)], to)->Ok_0;
            &&& free_of(l2, c) == free_of(l, c) - v
            &&& free_of(l2, to) == free_of(l, to) + v
            &&& account(l2, c).lock == (if account(l, c).lock <= v { 0 } else { account(l, c).lock - v })
        }),
{
    let cs = seq![(c, v)];
    assert(cs.drop_last() =~= Seq::<(AccountId, Balance)>::empty());
    assert(crate::state::covered(l, cs));
    let u = release_all(l, cs);
    assert(release_all(l, cs.drop_last()) == l);
    assert(free_of(u, c) == free_of(l, c));
    assert(free_of(u, to) == free_of(l, to));
    assert(pay_all(u, ed, cs.drop_last(), to) == Ok::<Ledger, crate::types::BalancesError>(u));
    law_transfer_succeeds(u, ed, c, to, v);
    law_settle_succeeds(l, ed, cs, to);
}

/// A pot with an amount target is refused to an unsigned origin, for a
/// target of zero or below the least contribution, to an account that may not
/// open another pot, and where a pot with the new pot's hash is stored.
pub proof fn law_create_with_limit_amount_refused(s: State, origin: Origin, receiver: AccountId, amount: Balance)
    ensures
        !(origin is Signed) ==> spec_create_with_limit_amount(s, origin, receiver, amount) == Err::<
            State,
            DispatchError,
        >(DispatchError::BadOrigin),
        origin is Signed && !(crate::types::saturated_u32(amount) > 0 && amount >= s.config.min_contribution)
            ==> spec_create_with_limit_amount(s, origin, receiver, amount) == Err::<State, DispatchError>(
            DispatchError::Module(Error::AmountToLow),
        ),
        origin matches Origin::Signed(o) && !crate::state::may_open(s, o) ==> spec_create_with_limit_amount(
            s,
            origin,
            receiver,
            amount,
        ) is Err,
        origin matches Origin::Signed(o) && s.pots.dom().contains(
            hash_of(
                MoneyPot {
                    owner: o,
                    receiver,
                    start_time: s.block_number,
                    end_time: Some(EndType::AmountReached { amount_type: AmountType::Native, amount }),
                    is_active: true,
                },
            ),
        ) ==> spec_create_with_limit_amount(s, origin, receiver, amount) is Err,
{
}

/// A pot that ends on a block is refused to an unsigned origin, and with
/// `ScheduleError` where its block is not after the current one or beyond the
/// longest lifetime.
pub proof fn law_create_with_limit_block_refused(s: State, origin: Origin, receiver: AccountId, end_block: BlockNumber)
    ensures
        !(origin is Signed) ==> spec_create_with_limit_block(s, origin, receiver, end_block) == Err::<
            State,
            DispatchError,
        >(DispatchError::BadOrigin),
        origin is Signed && end_block > s.block_number + s.config.max_block_number_end_time
            ==> spec_create_with_limit_block(s, origin, receiver, end_block) == Err::<State, DispatchError>(
            DispatchError::Module(Error::ScheduleError),
        ),
        origin is Signed && end_block <= s.block_number ==> spec_create_with_limit_block(
            s,
            origin,
            receiver,
            end_block,
        ) is Err,
{
}

} // verus!
