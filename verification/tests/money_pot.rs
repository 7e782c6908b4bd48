use pallet_money_pot::{
    AmountType, Balances, Config, DispatchError, EndType, Error, Origin, Pallet,
};

pub type MockAccountId = u64;

pub const ALICE: MockAccountId = 1;
pub const BOB: MockAccountId = 2;
pub const APOLIXIT: MockAccountId = 3;

const MAX_MONEY_POT_CURRENTLY_OPEN: u32 = 5;
const MIN_CONTRIBUTION: u64 = 5;
const STEP_CONTRIBUTION: u64 = 5;

fn test_config() -> Config {
    Config {
        max_money_pot_currently_open: MAX_MONEY_POT_CURRENTLY_OPEN,
        max_money_pot_contributors: 1000,
        min_contribution: MIN_CONTRIBUTION,
        step_contribution: STEP_CONTRIBUTION,
        existential_deposit: 1,
        max_block_number_end_time: 1_000_000,
    }
}

/// A pallet on block 1 whose accounts 1 to 6 hold 100 000 times their number.
fn build() -> Pallet {
    let mut balances = Balances::new(1);
    for who in 1..=6u64 {
        balances.set_balance(who, who * 100_000);
    }
    let mut pallet = Pallet::new(test_config(), balances);
    pallet.set_block_number(1);
    pallet
}

fn run_to_block(pallet: &mut Pallet, n: u64) {
    while pallet.block_number() < n {
        let next = pallet.block_number() + 1;
        pallet.set_block_number(next);
        pallet.on_initialize();
    }
}

/// Asserts that `call` fails with `error` and leaves the pallet as it was.
fn assert_noop(pallet: &mut Pallet, call: impl FnOnce(&mut Pallet) -> Result<(), DispatchError>, error: Error) {
    let before = pallet.clone();
    assert_eq!(call(pallet), Err(DispatchError::Module(error)));
    assert_eq!(*pallet, before);
}

#[test]
pub fn default_money_pot_count() {
    let pallet = build();
    assert_eq!(pallet.money_pot_count(), 0);
}

#[test]
pub fn create_moneypot_with_enought_balance_should_work() {
    let mut pallet = build();
    let balance_alice: u64 = 2000000000;
    let origin_alice = Origin::signed(ALICE);
    pallet.set_balance(ALICE, balance_alice);

    assert_eq!(balance_alice, pallet.free_balance(ALICE));

    assert_eq!(pallet.create_with_limit_amount(origin_alice, BOB, 1000), Ok(()));

    // Now we got one
    assert_eq!(pallet.money_pot_count(), 1);
}

#[test]
pub fn create_more_moneypot_than_max_allowed_should_fail() {
    let mut pallet = build();
    let balance_alice: u64 = 2000000000;
    pallet.set_balance(ALICE, balance_alice);

    assert_eq!(pallet.config().max_money_pot_currently_open, 5);

    for n in 0..pallet.config().max_money_pot_currently_open {
        pallet
            .create_with_limit_amount(Origin::signed(ALICE), BOB, (1000 * (1 + n)).into())
            .unwrap();
        assert_eq!(pallet.money_pot_count(), n + 1);
    }

    assert_noop(
        &mut pallet,
        |p| p.create_with_limit_amount(Origin::signed(ALICE), BOB, 1050),
        Error::MaxOpenOverflow,
    );
}

#[test]
pub fn contribute_moneypot_with_enought_fund_should_work() {
    let mut pallet = build();
    let target_amount = 10_000u64;
    // Get current block
    let current_block = pallet.block_number();

    // Create a money pot
    pallet.create_with_limit_amount(Origin::signed(APOLIXIT), BOB, target_amount).unwrap();

    // Get its hash
    let ref_hash = pallet.money_pots_hash(1).unwrap();
    let money_pot_opt = pallet.money_pots(&ref_hash);

    // Contribute
    pallet.add_balance(Origin::signed(APOLIXIT), ref_hash, 2000).unwrap();

    assert!(money_pot_opt.is_some());
    let money_pot = money_pot_opt.unwrap();

    assert_eq!(money_pot.is_active, true);
    assert_eq!(money_pot.owner, APOLIXIT);
    assert_eq!(money_pot.receiver, BOB);
    assert_eq!(money_pot.start_time, current_block);
    assert_eq!(
        money_pot.end_time,
        Some(EndType::AmountReached { amount_type: AmountType::Native, amount: target_amount })
    );
}

#[test]
pub fn contribute_moneypot_then_contribute_until_close_should_work() {
    let mut pallet = build();
    let target_amount = 10_000u64;

    // Get Apolixit and Alice balances at start
    let (initial_apolixit_free_balances, initial_apolixit_reserved_balances, apolixit_contribution) = (
        pallet.free_balance(APOLIXIT),
        pallet.reserved_balance(APOLIXIT),
        2000u64,
    );
    let (initial_alice_free_balances, initial_alice_reserved_balances, alice_contribution) = (
        pallet.free_balance(ALICE),
        pallet.reserved_balance(ALICE),
        9000u64,
    );

    let initial_bob_free_balances = pallet.free_balance(BOB);

    assert_eq!(0, initial_apolixit_reserved_balances);
    assert_eq!(0, initial_alice_reserved_balances);

    // Create a money pot
    pallet.create_with_limit_amount(Origin::signed(APOLIXIT), BOB, target_amount).unwrap();

    // Get money pot hash
    let ref_hash = pallet.money_pots_hash(1).unwrap();

    // Contribute
    pallet.add_balance(Origin::signed(APOLIXIT), ref_hash, apolixit_contribution).unwrap();

    // Apolixit usable balance is now decreased by its contribution
    assert_eq!(pallet.usable_balance(APOLIXIT), initial_apolixit_free_balances - apolixit_contribution);

    // BOB's free balance is the same as at the start: nothing has been transferred
    assert_eq!(pallet.free_balance(BOB), initial_bob_free_balances);

    pallet.add_balance(Origin::signed(ALICE), ref_hash, alice_contribution).unwrap();
    assert_eq!(pallet.usable_balance(ALICE), initial_alice_free_balances - alice_contribution);

    let money_pot = pallet.money_pots(&ref_hash).unwrap();
    // The money pot is closed: the target amount has been reached
    assert_eq!(money_pot.is_active, false);

    // Apolixit's free balance is decreased by its contribution
    assert_eq!(pallet.free_balance(APOLIXIT), initial_apolixit_free_balances - apolixit_contribution);
    // Same for Alice
    assert_eq!(pallet.free_balance(ALICE), initial_alice_free_balances - alice_contribution);

    // BOB got his money
    assert_eq!(
        pallet.free_balance(BOB),
        initial_bob_free_balances + apolixit_contribution + alice_contribution
    );

    // A contribution to a closed money pot is refused
    assert_noop(
        &mut pallet,
        |p| p.add_balance(Origin::signed(APOLIXIT), ref_hash, 4000),
        Error::MoneyPotIsClose,
    );
}

#[test]
pub fn contribute_moneypot_with_fund_lower_than_min_contribution_should_fail() {
    let mut pallet = build();
    let target_amount = 10_000u64;
    let min_contribution = MIN_CONTRIBUTION;
    let step_contribution = STEP_CONTRIBUTION;

    // Create a money pot
    pallet.create_with_limit_amount(Origin::signed(APOLIXIT), BOB, target_amount).unwrap();

    // Get its hash
    let ref_hash = pallet.money_pots_hash(1).unwrap();

    // Contribute
    assert_noop(
        &mut pallet,
        |p| p.add_balance(Origin::signed(APOLIXIT), ref_hash, (min_contribution - step_contribution).into()),
        Error::AmountToLow,
    );
}

#[test]
pub fn contribute_moneypot_with_balance_does_not_respect_contribution_step_should_fail() {
    let mut pallet = build();
    let target_amount = 10_000u64;
    let step_contribution = STEP_CONTRIBUTION;
    // Create a money pot
    pallet.create_with_limit_amount(Origin::signed(APOLIXIT), BOB, target_amount).unwrap();

    // Get its hash
    let ref_hash = pallet.money_pots_hash(1).unwrap();

    // Contribute
    assert_noop(
        &mut pallet,
        |p| p.add_balance(Origin::signed(APOLIXIT), ref_hash, (step_contribution - 1).into()),
        Error::InvalidAmountStep,
    );
}

#[test]
pub fn contribute_moneypot_with_not_enought_balance_should_fail() {
    let mut pallet = build();
    let target_amount = 40_000u64;
    pallet.set_balance(ALICE, 20_000u64);

    // Create a money pot
    pallet.create_with_limit_amount(Origin::signed(ALICE), BOB, target_amount).unwrap();

    // Get its hash
    let ref_hash = pallet.money_pots_hash(1).unwrap();

    // Contribute
    assert_noop(
        &mut pallet,
        |p| p.add_balance(Origin::signed(ALICE), ref_hash, 30_000u64),
        Error::NotEnoughBalance,
    );
}

#[test]
pub fn create_moneypot_with_endtime_block_should_work() {
    let mut pallet = build();
    let current_block = pallet.block_number();
    let target_block = current_block + 10;

    let apolixit_contribution = 2000u64;
    let alice_contribution = 2000u64;

    let initial_bob_free_balances = pallet.free_balance(BOB);

    // Create a money pot
    pallet.create_with_limit_block(Origin::signed(ALICE), BOB, target_block).unwrap();

    // Get its hash
    let ref_hash = pallet.money_pots_hash(1).unwrap();

    // Contribute
    pallet.add_balance(Origin::signed(APOLIXIT), ref_hash, apolixit_contribution).unwrap();
    pallet.add_balance(Origin::signed(ALICE), ref_hash, alice_contribution).unwrap();

    assert_eq!(pallet.money_pots(&ref_hash).unwrap().is_active, true);

    // BOB didn't receive his money yet
    assert_eq!(pallet.free_balance(BOB), initial_bob_free_balances);

    run_to_block(&mut pallet, target_block);
    assert_eq!(
        pallet.free_balance(BOB),
        initial_bob_free_balances + apolixit_contribution + alice_contribution
    );

    assert_eq!(pallet.money_pots(&ref_hash).unwrap().is_active, false);
}

#[test]
pub fn create_moneypot_with_end_time_block_invalid_should_fail() {
    let mut pallet = build();
    let target = pallet.block_number() + 20;
    run_to_block(&mut pallet, target);

    let end_block = pallet.block_number() - 10;
    assert_noop(
        &mut pallet,
        |p| p.create_with_limit_block(Origin::signed(ALICE), BOB, end_block),
        Error::ScheduleError,
    );
}

#[test]
pub fn create_moneypot_with_zero_balance_target_should_fail() {
    let mut pallet = build();
    assert_noop(
        &mut pallet,
        |p| p.create_with_limit_amount(Origin::signed(APOLIXIT), BOB, 0),
        Error::AmountToLow,
    );
}

#[test]
pub fn create_moneypot_with_zero_balance_target_inf_minimum_contribution_should_fail() {
    let mut pallet = build();
    assert_noop(
        &mut pallet,
        |p| p.create_with_limit_amount(Origin::signed(APOLIXIT), BOB, (MIN_CONTRIBUTION - STEP_CONTRIBUTION).into()),
        Error::AmountToLow,
    );
}
