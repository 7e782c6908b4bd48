use frame_support::sp_runtime::traits::BlakeTwo256;
use pallet_money_pot::{
    encode_money_pot, encode_schedule_name, money_pot_hash, AccountData, AmountType, Balances,
    BalancesError, Config, DispatchError, EndType, Error, Event, GenesisConfig, MoneyPot, Origin,
    Pallet, PotHash, ID_LOCK_MONEY_POT,
};
use parity_scale_codec::Encode;

const ALICE: u64 = 1;
const BOB: u64 = 2;
const CAROL: u64 = 3;
const DAVE: u64 = 4;

fn config() -> Config {
    Config {
        max_money_pot_currently_open: 5,
        max_money_pot_contributors: 1000,
        min_contribution: 5,
        step_contribution: 5,
        existential_deposit: 1,
        max_block_number_end_time: 100,
    }
}

fn pallet_with(config: Config, ledger_ed: u64) -> Pallet {
    let mut balances = Balances::new(ledger_ed);
    for who in 1..=4u64 {
        balances.set_balance(who, 100_000);
    }
    let mut pallet = Pallet::new(config, balances);
    pallet.set_block_number(1);
    pallet
}

fn pallet() -> Pallet {
    pallet_with(config(), 1)
}

fn refused(pallet: &mut Pallet, call: impl FnOnce(&mut Pallet) -> Result<(), DispatchError>) -> DispatchError {
    let before = pallet.clone();
    let e = call(pallet).unwrap_err();
    assert_eq!(*pallet, before);
    e
}

fn sample_pot() -> MoneyPot {
    MoneyPot {
        owner: 7,
        receiver: 0x0102_0304_0506_0708,
        start_time: 42,
        end_time: Some(EndType::AmountReached { amount_type: AmountType::DOT, amount: 300 }),
        is_active: true,
    }
}

#[test]
fn encoding_is_the_scale_encoding_of_the_fields() {
    let pot = sample_pot();
    let mut expected = Vec::new();
    expected.extend(7u64.encode());
    expected.extend(0x0102_0304_0506_0708u64.encode());
    expected.extend(42u64.encode());
    expected.extend([1u8, 1u8, 1u8]);
    expected.extend(300u64.encode());
    expected.push(1u8);
    assert_eq!(encode_money_pot(&pot), expected);
    assert_eq!(&encode_money_pot(&pot)[8..16], &[8u8, 7, 6, 5, 4, 3, 2, 1]);

    let time_pot = MoneyPot { end_time: Some(EndType::Time(9)), is_active: false, ..pot };
    let bytes = encode_money_pot(&time_pot);
    assert_eq!(bytes.len(), 8 * 3 + 2 + 8 + 1);
    assert_eq!(&bytes[24..26], &[1u8, 0u8]);
    assert_eq!(*bytes.last().unwrap(), 0u8);

    let open_pot = MoneyPot { end_time: None, ..pot };
    assert_eq!(encode_money_pot(&open_pot).len(), 8 * 3 + 1 + 1);
}

#[test]
fn hash_is_blake2_256_of_the_encoding() {
    let pot = sample_pot();
    let expected =
        <BlakeTwo256 as frame_support::sp_runtime::traits::Hash>::hash(&encode_money_pot(&pot)).0;
    let h = money_pot_hash(&pot);
    assert_eq!(h, PotHash(expected));
    let other = money_pot_hash(&MoneyPot { start_time: 43, ..pot });
    assert_ne!(h, other);
}

#[test]
fn schedule_name_is_lock_id_then_hash() {
    let h = PotHash([9u8; 32]);
    let name = encode_schedule_name(&h);
    assert_eq!(name.len(), 40);
    assert_eq!(&name[..8], b"moneypot");
    assert_eq!(&name[..8], &ID_LOCK_MONEY_POT);
    assert_eq!(&name[8..], &[9u8; 32]);
}

#[test]
fn money_pot_builders() {
    let mut pot = MoneyPot::create(&ALICE, &BOB, 3);
    assert_eq!(pot.end_time, None);
    assert!(pot.is_active);
    pot.with_native_currency_limit(50);
    assert_eq!(pot.end_time, Some(EndType::AmountReached { amount_type: AmountType::Native, amount: 50 }));
    pot.with_end_block(8);
    assert_eq!(pot.end_time, Some(EndType::Time(8)));
    pot.close();
    assert!(!pot.is_active);
    assert_eq!((pot.owner, pot.receiver, pot.start_time), (ALICE, BOB, 3));
}

#[test]
fn creation_records_the_pot_everywhere() {
    let mut p = pallet();
    p.create_with_limit_amount(Origin::signed(ALICE), BOB, 100).unwrap();
    let h = p.money_pots_hash(1).unwrap();
    assert_eq!(p.money_pots_hash(0), None);
    assert_eq!(p.money_pots_hash(2), None);
    let pot = p.money_pots(&h).unwrap();
    assert_eq!(h, money_pot_hash(&pot));
    assert_eq!(p.money_pot_owned(ALICE), vec![h]);
    assert_eq!(p.money_pot_owned(BOB), vec![]);
    assert_eq!(p.events(), vec![Event::Created { ref_hash: h }]);
    assert_eq!(p.check_owner(&ALICE, &h), Ok(true));
    assert_eq!(p.check_owner(&BOB, &h), Ok(false));
    assert_eq!(p.get_money_pot(&h), Ok(pot));
    assert_eq!(p.get_money_pot(&PotHash([0u8; 32])), Err(Error::DoesNotExists));
    assert_eq!(p.check_owner(&ALICE, &PotHash([0u8; 32])), Err(Error::DoesNotExists));
}

#[test]
fn the_same_pot_twice_in_a_block_already_exists() {
    let mut p = pallet();
    p.create_with_limit_amount(Origin::signed(ALICE), BOB, 100).unwrap();
    let e = refused(&mut p, |p| p.create_with_limit_amount(Origin::signed(ALICE), BOB, 100));
    assert_eq!(e, DispatchError::Module(Error::AlreadyExists));
    p.set_block_number(2);
    p.create_with_limit_amount(Origin::signed(ALICE), BOB, 100).unwrap();
    assert_eq!(p.money_pot_count(), 2);
}

#[test]
fn calls_need_a_signed_origin() {
    let mut p = pallet();
    for origin in [Origin::root(), Origin::Unsigned] {
        let e = refused(&mut p, |p| p.create_with_limit_amount(origin, BOB, 100));
        assert_eq!(e, DispatchError::BadOrigin);
        let e = refused(&mut p, |p| p.create_with_limit_block(origin, BOB, 5));
        assert_eq!(e, DispatchError::BadOrigin);
        let e = refused(&mut p, |p| p.add_balance(origin, PotHash([0u8; 32]), 10));
        assert_eq!(e, DispatchError::BadOrigin);
    }
}

#[test]
fn contribution_errors() {
    let mut p = pallet();
    let e = refused(&mut p, |p| p.add_balance(Origin::signed(ALICE), PotHash([0u8; 32]), 10));
    assert_eq!(e, DispatchError::Module(Error::DoesNotExists));
    p.create_with_limit_amount(Origin::signed(ALICE), BOB, 1000).unwrap();
    let h = p.money_pots_hash(1).unwrap();
    // a free balance of 100 000 does not cover 100 005
    let e = refused(&mut p, |p| p.add_balance(Origin::signed(CAROL), h, 100_005));
    assert_eq!(e, DispatchError::Module(Error::NotEnoughBalance));
    // the whole free balance can be contributed; paying it out then fails
    let e = refused(&mut p, |p| p.add_balance(Origin::signed(CAROL), h, 100_000));
    assert_eq!(e, DispatchError::Balances(BalancesError::KeepAlive));
    p.add_balance(Origin::signed(CAROL), h, 99_995).unwrap();
}

#[test]
fn too_many_contributors_are_refused() {
    let mut p = pallet_with(Config { max_money_pot_contributors: 1, ..config() }, 1);
    p.create_with_limit_amount(Origin::signed(ALICE), BOB, 1000).unwrap();
    let h = p.money_pots_hash(1).unwrap();
    p.add_balance(Origin::signed(CAROL), h, 10).unwrap();
    // a second contribution of the same contributor is merged
    p.add_balance(Origin::signed(CAROL), h, 15).unwrap();
    assert_eq!(p.money_pot_contribution(h), vec![(CAROL, 25)]);
    let e = refused(&mut p, |p| p.add_balance(Origin::signed(DAVE), h, 10));
    assert_eq!(e, DispatchError::Module(Error::MaxMoneyPotContributors));
}

#[test]
fn contributions_add_up_in_the_lock() {
    let mut p = pallet();
    p.create_with_limit_amount(Origin::signed(ALICE), BOB, 1000).unwrap();
    let h = p.money_pots_hash(1).unwrap();
    p.add_balance(Origin::signed(CAROL), h, 100).unwrap();
    assert_eq!(p.usable_balance(CAROL), 100_000 - 100);
    p.add_balance(Origin::signed(CAROL), h, 50).unwrap();
    assert_eq!(p.usable_balance(CAROL), 100_000 - 150);
    assert_eq!(p.free_balance(CAROL), 100_000);
    assert_eq!(p.money_pot_contribution(h), vec![(CAROL, 150)]);
    assert_eq!(
        p.events().last(),
        Some(&Event::MoneyAdded { ref_hash: h, who: CAROL, amount: 50 })
    );
    assert!(p.money_pots(&h).unwrap().is_active);
}

#[test]
fn reaching_the_target_pays_every_contribution_to_the_receiver() {
    let mut p = pallet();
    p.create_with_limit_amount(Origin::signed(ALICE), BOB, 300).unwrap();
    let h = p.money_pots_hash(1).unwrap();
    p.add_balance(Origin::signed(CAROL), h, 100).unwrap();
    p.add_balance(Origin::signed(BOB), h, 50).unwrap();
    p.add_balance(Origin::signed(DAVE), h, 150).unwrap();
    assert!(!p.money_pots(&h).unwrap().is_active);
    assert_eq!(p.free_balance(CAROL), 100_000 - 100);
    assert_eq!(p.free_balance(DAVE), 100_000 - 150);
    // the receiver's own contribution stays with it; the others arrive
    assert_eq!(p.free_balance(BOB), 100_000 + 100 + 150);
    assert_eq!(p.free_balance(ALICE), 100_000);
    assert_eq!(p.usable_balance(CAROL), 100_000 - 100);
    let events = p.events();
    assert_eq!(events[events.len() - 2], Event::Closed { ref_hash: h });
    assert_eq!(events[events.len() - 1], Event::MoneyAdded { ref_hash: h, who: DAVE, amount: 150 });
}

#[test]
fn a_failed_payout_undoes_the_contribution() {
    // the currency keeps 1000 in every account
    let mut p = pallet_with(config(), 1000);
    p.create_with_limit_amount(Origin::signed(ALICE), BOB, 99_500).unwrap();
    let h = p.money_pots_hash(1).unwrap();
    let e = refused(&mut p, |p| p.add_balance(Origin::signed(CAROL), h, 99_500));
    assert_eq!(e, DispatchError::Balances(BalancesError::KeepAlive));
    assert!(p.money_pots(&h).unwrap().is_active);
    assert_eq!(p.money_pot_contribution(h), vec![]);
}

#[test]
fn a_receiver_below_the_deposit_fails_the_payout() {
    let mut p = pallet_with(config(), 1000);
    // account 9 holds nothing and the pot is smaller than the currency's deposit
    p.create_with_limit_amount(Origin::signed(ALICE), 9, 500).unwrap();
    let h = p.money_pots_hash(1).unwrap();
    let e = refused(&mut p, |p| p.add_balance(Origin::signed(CAROL), h, 500));
    assert_eq!(e, DispatchError::Balances(BalancesError::ExistentialDeposit));
}

#[test]
fn a_pot_with_no_end_cannot_take_contributions() {
    let mut p = pallet();
    let h = p.control_creation(MoneyPot::create(&ALICE, &BOB, 1)).unwrap();
    assert_eq!(p.money_pot_count(), 1);
    assert_eq!(p.is_need_transfer(&h, p.money_pots(&h).unwrap()), Err(Error::NoEndTimeSpecified));
    let e = refused(&mut p, |p| p.add_balance(Origin::signed(CAROL), h, 10));
    assert_eq!(e, DispatchError::Module(Error::NoEndTimeSpecified));
}

#[test]
fn is_need_transfer_compares_the_sum_with_the_target() {
    let mut p = pallet();
    p.create_with_limit_amount(Origin::signed(ALICE), BOB, 1000).unwrap();
    let h = p.money_pots_hash(1).unwrap();
    p.add_balance(Origin::signed(CAROL), h, 400).unwrap();
    p.add_balance(Origin::signed(DAVE), h, 500).unwrap();
    let pot = p.money_pots(&h).unwrap();
    assert_eq!(p.is_need_transfer(&h, pot), Ok(false));
    let lower = MoneyPot { end_time: Some(EndType::AmountReached { amount_type: AmountType::Native, amount: 900 }), ..pot };
    assert_eq!(p.is_need_transfer(&h, lower), Ok(true));
    let timed = MoneyPot { end_time: Some(EndType::Time(4)), ..pot };
    assert_eq!(p.is_need_transfer(&h, timed), Ok(false));
    // the current block is 1
    let ended = MoneyPot { end_time: Some(EndType::Time(1)), ..pot };
    assert_eq!(p.is_need_transfer(&h, ended), Ok(true));
    p.set_block_number(4);
    assert_eq!(p.is_need_transfer(&h, timed), Ok(true));
}

#[test]
fn root_transfer_pays_and_closes() {
    let mut p = pallet();
    p.create_with_limit_amount(Origin::signed(ALICE), BOB, 1000).unwrap();
    let h = p.money_pots_hash(1).unwrap();
    p.add_balance(Origin::signed(CAROL), h, 400).unwrap();
    p.transfer_balance(Origin::root(), h).unwrap();
    assert_eq!(p.free_balance(BOB), 100_400);
    assert_eq!(p.free_balance(CAROL), 99_600);
    assert_eq!(p.usable_balance(CAROL), 99_600);
    assert!(!p.money_pots(&h).unwrap().is_active);
    let e = refused(&mut p, |p| p.transfer_balance(Origin::root(), PotHash([1u8; 32])));
    assert_eq!(e, DispatchError::Module(Error::DoesNotExists));
}

#[test]
fn a_payout_that_cannot_be_covered_changes_nothing() {
    let mut p = pallet();
    p.create_with_limit_amount(Origin::signed(ALICE), BOB, 1000).unwrap();
    let h = p.money_pots_hash(1).unwrap();
    p.add_balance(Origin::signed(CAROL), h, 400).unwrap();
    p.set_balance(CAROL, 100);
    let e = refused(&mut p, |p| p.transfer_balance(Origin::root(), h));
    assert_eq!(e, DispatchError::Module(Error::NotEnoughBalance));
}

#[test]
fn a_direct_payout_keeps_the_locks_released_before_an_uncovered_one() {
    let mut p = pallet();
    p.create_with_limit_amount(Origin::signed(ALICE), BOB, 1000).unwrap();
    let h = p.money_pots_hash(1).unwrap();
    p.add_balance(Origin::signed(CAROL), h, 400).unwrap();
    p.add_balance(Origin::signed(DAVE), h, 300).unwrap();
    p.set_balance(DAVE, 100);
    let e = p.transfer_contributions(h).unwrap_err();
    assert_eq!(e, DispatchError::Module(Error::NotEnoughBalance));
    // both locks are released, nothing is transferred, the pot stays open
    assert_eq!(p.usable_balance(CAROL), 100_000);
    assert_eq!(p.usable_balance(DAVE), 100);
    assert_eq!(p.free_balance(BOB), 100_000);
    assert!(p.money_pots(&h).unwrap().is_active);
    assert_eq!(p.money_pot_contribution(h), vec![(CAROL, 400), (DAVE, 300)]);
}

#[test]
fn a_direct_payout_keeps_the_transfers_made_before_a_failing_one() {
    // the currency keeps 1000 in every account
    let mut p = pallet_with(config(), 1000);
    p.create_with_limit_amount(Origin::signed(ALICE), BOB, 1000).unwrap();
    let h = p.money_pots_hash(1).unwrap();
    p.add_balance(Origin::signed(CAROL), h, 400).unwrap();
    p.add_balance(Origin::signed(DAVE), h, 300).unwrap();
    // DAVE's transfer would leave it below the deposit
    p.set_balance(DAVE, 1200);
    let e = p.transfer_contributions(h).unwrap_err();
    assert_eq!(e, DispatchError::Balances(BalancesError::KeepAlive));
    assert_eq!(p.free_balance(CAROL), 100_000 - 400);
    assert_eq!(p.free_balance(BOB), 100_000 + 400);
    assert_eq!(p.free_balance(DAVE), 1200);
    assert_eq!(p.usable_balance(DAVE), 1200);
    assert!(p.money_pots(&h).unwrap().is_active);
    // as a dispatched call, the same payout changes nothing
    let mut q = pallet_with(config(), 1000);
    q.create_with_limit_amount(Origin::signed(ALICE), BOB, 1000).unwrap();
    q.add_balance(Origin::signed(CAROL), h, 400).unwrap();
    q.add_balance(Origin::signed(DAVE), h, 300).unwrap();
    q.set_balance(DAVE, 1200);
    let e = refused(&mut q, |q| q.transfer_balance(Origin::root(), h));
    assert_eq!(e, DispatchError::Balances(BalancesError::KeepAlive));
}

#[test]
fn time_pot_stays_open_until_its_block() {
    let mut p = pallet();
    p.create_with_limit_block(Origin::signed(ALICE), BOB, 4).unwrap();
    let h = p.money_pots_hash(1).unwrap();
    assert_eq!(p.scheduled_count(), 1);
    p.add_balance(Origin::signed(CAROL), h, 50_000).unwrap();
    assert!(p.money_pots(&h).unwrap().is_active);
    p.set_block_number(3);
    p.on_initialize();
    assert!(p.money_pots(&h).unwrap().is_active);
    assert_eq!(p.scheduled_count(), 1);
    p.set_block_number(4);
    p.on_initialize();
    assert!(!p.money_pots(&h).unwrap().is_active);
    assert_eq!(p.scheduled_count(), 0);
    assert_eq!(p.free_balance(BOB), 150_000);
}

#[test]
fn end_block_limits() {
    let mut p = pallet();
    // beyond the largest lifetime
    let e = refused(&mut p, |p| p.create_with_limit_block(Origin::signed(ALICE), BOB, 102));
    assert_eq!(e, DispatchError::Module(Error::ScheduleError));
    // the current block is already past
    let e = refused(&mut p, |p| p.create_with_limit_block(Origin::signed(ALICE), BOB, 1));
    assert_eq!(e, DispatchError::Module(Error::ScheduleError));
    p.create_with_limit_block(Origin::signed(ALICE), BOB, 101).unwrap();
    p.create_with_limit_block(Origin::signed(ALICE), BOB, 2).unwrap();
    assert_eq!(p.money_pot_count(), 2);
}

#[test]
fn genesis_builds_nothing() {
    let mut p = pallet();
    let mut genesis = GenesisConfig::default();
    assert!(genesis.money_pot.is_empty());
    genesis.money_pot.push((ALICE, BOB, 100));
    let before = p.clone();
    genesis.build(&mut p);
    assert_eq!(p, before);
}

#[test]
fn lock_balance_checks_the_balance_and_adds_to_the_lock() {
    let mut p = pallet();
    p.lock_balance(&ALICE, 300);
    assert_eq!(p.usable_balance(ALICE), 100_000 - 300);
    p.lock_balance(&ALICE, 0);
    assert_eq!(p.usable_balance(ALICE), 100_000 - 300);
    p.lock_balance(&ALICE, 200);
    assert_eq!(p.usable_balance(ALICE), 100_000 - 500);
    assert_eq!(p.free_balance(ALICE), 100_000);
    // more than the free balance is not locked
    let before = p.clone();
    p.lock_balance(&ALICE, 100_001);
    assert_eq!(p, before);
}

#[test]
fn currency_rules() {
    let mut b = Balances::new(10);
    b.set_balance(ALICE, 1000);
    b.set_balance(BOB, 5);
    assert_eq!(b.free_balance(BOB), 0);
    assert_eq!(b.transfer(ALICE, BOB, 5), Err(BalancesError::ExistentialDeposit));
    assert_eq!(b.transfer(ALICE, BOB, 2000), Err(BalancesError::InsufficientBalance));
    assert_eq!(b.transfer(ALICE, BOB, 995), Err(BalancesError::KeepAlive));
    b.set_lock(ALICE, 600);
    assert_eq!(b.usable_balance(ALICE), 400);
    assert_eq!(b.transfer(ALICE, BOB, 500), Err(BalancesError::LiquidityRestrictions));
    assert_eq!(b.transfer(ALICE, BOB, 400), Ok(()));
    assert_eq!(b.account(ALICE), AccountData { free: 600, lock: 600 });
    assert_eq!(b.free_balance(BOB), 400);
    b.remove_lock(ALICE);
    assert_eq!(b.usable_balance(ALICE), 600);
    b.set_balance(CAROL, u64::MAX);
    assert_eq!(b.transfer(ALICE, CAROL, 100), Err(BalancesError::Overflow));
    assert_eq!(b.transfer(ALICE, ALICE, 100), Ok(()));
    assert_eq!(b.transfer(ALICE, BOB, 0), Ok(()));
    assert_eq!(b.free_balance(ALICE), 600);
}

#[test]
fn a_time_pot_without_contributions_just_closes() {
    let mut p = pallet();
    p.create_with_limit_block(Origin::signed(ALICE), BOB, 3).unwrap();
    let h = p.money_pots_hash(1).unwrap();
    let before = p.clone();
    p.set_block_number(3);
    p.on_initialize();
    assert!(!p.money_pots(&h).unwrap().is_active);
    for who in 1..=4u64 {
        assert_eq!(p.free_balance(who), before.free_balance(who));
    }
    assert_eq!(p.events().last(), Some(&Event::Closed { ref_hash: h }));
}

#[test]
fn only_open_pots_count_for_their_owner() {
    let mut p = pallet_with(Config { max_money_pot_currently_open: 1, ..config() }, 1);
    p.create_with_limit_amount(Origin::signed(ALICE), BOB, 10).unwrap();
    let h = p.money_pots_hash(1).unwrap();
    let e = refused(&mut p, |p| p.create_with_limit_amount(Origin::signed(ALICE), BOB, 20));
    assert_eq!(e, DispatchError::Module(Error::MaxOpenOverflow));
    p.add_balance(Origin::signed(CAROL), h, 10).unwrap();
    assert!(!p.money_pots(&h).unwrap().is_active);
    // the closed pot no longer counts
    p.create_with_limit_amount(Origin::signed(ALICE), BOB, 20).unwrap();
    assert_eq!(p.money_pot_count(), 2);
    assert_eq!(p.money_pot_owned(ALICE).len(), 2);
    let e = refused(&mut p, |p| p.create_with_limit_amount(Origin::signed(ALICE), BOB, 30));
    assert_eq!(e, DispatchError::Module(Error::MaxOpenOverflow));
}

#[test]
fn two_contributions_stay_locked_until_paid_out() {
    let mut p = pallet();
    p.set_balance(CAROL, 100);
    p.create_with_limit_block(Origin::signed(ALICE), BOB, 11).unwrap();
    let h = p.money_pots_hash(1).unwrap();
    p.add_balance(Origin::signed(CAROL), h, 20).unwrap();
    p.add_balance(Origin::signed(CAROL), h, 30).unwrap();
    assert_eq!(p.money_pot_contribution(h), vec![(CAROL, 50)]);
    assert_eq!(p.free_balance(CAROL), 100);
    assert_eq!(p.usable_balance(CAROL), 50);
}

#[test]
fn paying_one_pot_keeps_the_contribution_to_another_locked() {
    let mut p = pallet();
    p.create_with_limit_block(Origin::signed(ALICE), BOB, 50).unwrap();
    p.create_with_limit_block(Origin::signed(ALICE), BOB, 60).unwrap();
    let a = p.money_pots_hash(1).unwrap();
    let b = p.money_pots_hash(2).unwrap();
    p.add_balance(Origin::signed(CAROL), a, 100).unwrap();
    p.add_balance(Origin::signed(CAROL), b, 200).unwrap();
    assert_eq!(p.usable_balance(CAROL), 100_000 - 300);
    p.transfer_contributions(a).unwrap();
    assert_eq!(p.free_balance(CAROL), 100_000 - 100);
    assert_eq!(p.usable_balance(CAROL), 100_000 - 100 - 200);
    assert_eq!(p.free_balance(BOB), 100_000 + 100);
    assert!(!p.money_pots(&a).unwrap().is_active);
    assert!(p.money_pots(&b).unwrap().is_active);
}

#[test]
fn a_contribution_on_the_end_block_pays_out() {
    let mut p = pallet();
    p.create_with_limit_block(Origin::signed(ALICE), BOB, 4).unwrap();
    let h = p.money_pots_hash(1).unwrap();
    p.add_balance(Origin::signed(CAROL), h, 100).unwrap();
    assert!(p.money_pots(&h).unwrap().is_active);
    p.set_block_number(4);
    p.add_balance(Origin::signed(DAVE), h, 50).unwrap();
    assert!(!p.money_pots(&h).unwrap().is_active);
    assert_eq!(p.free_balance(BOB), 100_000 + 150);
    assert_eq!(p.usable_balance(CAROL), 100_000 - 100);
    assert_eq!(p.usable_balance(DAVE), 100_000 - 50);
}

#[test]
fn a_closed_pot_stays_closed_and_refuses_contributions() {
    let mut p = pallet();
    p.create_with_limit_amount(Origin::signed(ALICE), BOB, 100).unwrap();
    let h = p.money_pots_hash(1).unwrap();
    p.add_balance(Origin::signed(CAROL), h, 100).unwrap();
    let closed = p.money_pots(&h).unwrap();
    assert!(!closed.is_active);
    p.create_with_limit_block(Origin::signed(ALICE), BOB, 3).unwrap();
    p.set_block_number(3);
    p.on_initialize();
    assert_eq!(p.money_pots(&h), Some(closed));
    let e = refused(&mut p, |p| p.add_balance(Origin::signed(DAVE), h, 10));
    assert_eq!(e, DispatchError::Module(Error::MoneyPotIsClose));
}
