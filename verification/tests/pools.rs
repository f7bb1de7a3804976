use sp_runtime::traits::AccountIdConversion;
use stake_election::balances::Balances;
use stake_election::ledger::{StakingError, UnlockChunk};
use stake_election::pools::{PoolConfig, PoolError, PoolEvent, Pools};
use stake_election::staking::StakingEvent;

fn config() -> PoolConfig {
    PoolConfig {
        pallet_id: *b"py/nopls",
        existential_deposit: 1,
        bonding_duration: 2,
        max_unlocking_chunks: 3,
        max_unbonding: 2,
    }
}

fn funded(accounts: &[u64]) -> Balances {
    let mut book = Balances::new();
    for who in accounts {
        assert!(book.deposit(*who, 1000));
    }
    book
}

/// A pool, opened by account 1 with 100, that accounts 1 to 9 can afford.
fn one_pool() -> (Pools, Balances) {
    let mut book = funded(&[1, 2, 3, 4, 5, 6, 7, 8, 9]);
    let mut pools = Pools::new(config());
    assert_eq!(pools.create_at(&mut book, 1, 100, 5000), Ok(1));
    (pools, book)
}

fn sum_of_ledgers(pools: &Pools) -> u128 {
    (1..=pools.pool_count() as u32).map(|id| pools.ledger(id).unwrap().total()).sum()
}

#[test]
fn balances_deposit_and_withdraw() {
    let mut book = Balances::new();
    assert_eq!(book.free_balance(1), 0);
    assert!(book.deposit(1, 10));
    assert!(book.deposit(1, 5));
    assert_eq!(book.free_balance(1), 15);
    assert!(!book.withdraw(1, 16));
    assert_eq!(book.free_balance(1), 15);
    assert!(book.withdraw(1, 15));
    assert_eq!(book.free_balance(1), 0);
    assert!(!book.withdraw(2, 1));
    assert!(book.withdraw(2, 0));
    assert!(book.deposit(3, u128::MAX));
    assert!(!book.deposit(3, 1));
    assert_eq!(book.free_balance(3), u128::MAX);
}

#[test]
fn pools_start_empty() {
    let pools = Pools::new(config());
    assert_eq!(pools.pool_count(), 0);
    assert_eq!(pools.total_value_locked(), 0);
    assert_eq!(pools.current_era(), 0);
    assert!(pools.ledger(1).is_none());
    assert!(pools.bonded_account(1).is_none());
    assert!(pools.member(1, 1).is_none());
    assert_eq!(pools.events(), vec![]);
}

#[test]
fn pools_create_bonds_and_charges_the_deposit() {
    let (pools, book) = one_pool();
    assert_eq!(pools.pool_count(), 1);
    assert_eq!(book.free_balance(1), 899);
    assert_eq!(pools.bonded_account(1), Some((5000, 101)));
    assert_eq!(pools.ledger(1).unwrap().total(), 100);
    assert_eq!(pools.ledger(1).unwrap().active(), 100);
    assert_eq!(pools.member(1, 1), Some((100, vec![])));
    assert_eq!(pools.total_value_locked(), 100);
    assert_eq!(pools.events(), vec![StakingEvent::Bonded { stash: 5000, amount: 100 }]);
}

#[test]
fn pools_create_needs_the_funds() {
    let mut book = funded(&[1]);
    let mut pools = Pools::new(config());
    assert_eq!(pools.create_at(&mut book, 1, 1000, 5000), Err(PoolError::InsufficientBalance));
    assert_eq!(pools.create_at(&mut book, 2, 0, 5000), Err(PoolError::InsufficientBalance));
    assert_eq!(pools.create_at(&mut book, 1, u128::MAX, 5000), Err(PoolError::Overflow));
    assert_eq!(pools.pool_count(), 0);
    assert_eq!(book.free_balance(1), 1000);
    assert_eq!(pools.create_at(&mut book, 1, 999, 5000), Ok(1));
    assert_eq!(book.free_balance(1), 0);
}

#[test]
fn pools_are_numbered_from_one() {
    let (mut pools, mut book) = one_pool();
    assert_eq!(pools.create_at(&mut book, 2, 50, 5001), Ok(2));
    assert_eq!(pools.create_at(&mut book, 1, 10, 5002), Ok(3));
    assert_eq!(pools.bonded_account(2), Some((5001, 51)));
    assert!(pools.ledger(0).is_none());
    assert!(pools.ledger(4).is_none());
    assert_eq!(pools.total_value_locked(), 160);
}

#[test]
fn pools_unknown_pool_is_refused() {
    let (mut pools, mut book) = one_pool();
    for id in [0, 2, u32::MAX] {
        assert_eq!(pools.join(&mut book, 2, 10, id), Err(PoolError::PoolNotFound));
        assert_eq!(pools.bond_extra(&mut book, 1, 10, id), Err(PoolError::PoolNotFound));
        assert_eq!(pools.unbond(1, 10, id), Err(PoolError::PoolNotFound));
        assert_eq!(pools.withdraw_unbonded(&mut book, 1, id), Err(PoolError::PoolNotFound));
        assert_eq!(pools.pool_withdraw_unbonded(id), Err(PoolError::PoolNotFound));
    }
    assert_eq!(pools.total_value_locked(), 100);
    assert_eq!(book.free_balance(2), 1000);
}

#[test]
fn pools_unknown_member_is_refused() {
    let (mut pools, mut book) = one_pool();
    assert_eq!(pools.unbond(2, 10, 1), Err(PoolError::PoolMemberNotFound));
    assert_eq!(pools.bond_extra(&mut book, 2, 10, 1), Err(PoolError::PoolMemberNotFound));
    assert_eq!(pools.withdraw_unbonded(&mut book, 2, 1), Err(PoolError::PoolMemberNotFound));
    assert_eq!(book.free_balance(2), 1000);
}

#[test]
fn pools_join_twice_is_refused() {
    let (mut pools, mut book) = one_pool();
    assert_eq!(pools.join(&mut book, 2, 10, 1), Ok(()));
    assert_eq!(pools.join(&mut book, 2, 10, 1), Err(PoolError::AccountBelongsToOtherPool));
    assert_eq!(pools.join(&mut book, 1, 10, 1), Err(PoolError::AccountBelongsToOtherPool));
    assert_eq!(pools.member(1, 2), Some((10, vec![])));
    assert_eq!(book.free_balance(2), 990);
}

#[test]
fn pools_join_needs_the_funds() {
    let (mut pools, mut book) = one_pool();
    assert_eq!(pools.join(&mut book, 2, 1001, 1), Err(PoolError::InsufficientBalance));
    assert_eq!(pools.join(&mut book, 77, 1, 1), Err(PoolError::InsufficientBalance));
    assert!(pools.member(1, 2).is_none());
    assert_eq!(pools.total_value_locked(), 100);
}

#[test]
fn pools_join_refuses_overflow() {
    let mut book = Balances::new();
    assert!(book.deposit(1, u128::MAX));
    assert!(book.deposit(2, 10));
    let mut pools = Pools::new(config());
    assert_eq!(pools.create_at(&mut book, 1, u128::MAX - 1, 5000), Ok(1));
    assert_eq!(pools.join(&mut book, 2, 1, 1), Err(PoolError::Overflow));
    assert_eq!(book.free_balance(2), 10);
    assert_eq!(pools.total_value_locked(), u128::MAX - 1);
}

#[test]
fn pools_join_and_bond_extra_raise_the_total() {
    let (mut pools, mut book) = one_pool();
    pools.reset_events();
    assert_eq!(pools.join(&mut book, 2, 40, 1), Ok(()));
    assert_eq!(pools.bond_extra(&mut book, 2, 2, 1), Ok(()));
    assert_eq!(pools.bond_extra(&mut book, 1, 8, 1), Ok(()));
    assert_eq!(pools.member(1, 1), Some((108, vec![])));
    assert_eq!(pools.member(1, 2), Some((42, vec![])));
    assert_eq!(pools.ledger(1).unwrap().active(), 150);
    assert_eq!(pools.total_value_locked(), 150);
    assert_eq!(pools.bonded_account(1), Some((5000, 151)));
    assert_eq!(book.free_balance(2), 958);
    assert_eq!(book.free_balance(1), 891);
    assert_eq!(
        pools.events(),
        vec![
            StakingEvent::Bonded { stash: 5000, amount: 40 },
            StakingEvent::Bonded { stash: 5000, amount: 2 },
            StakingEvent::Bonded { stash: 5000, amount: 8 }
        ]
    );
}

#[test]
fn pools_unbond_does_not_change_the_total() {
    let (mut pools, mut book) = one_pool();
    assert_eq!(pools.join(&mut book, 2, 40, 1), Ok(()));
    assert_eq!(pools.unbond(2, 15, 1), Ok(()));
    assert_eq!(pools.total_value_locked(), 140);
    assert_eq!(pools.ledger(1).unwrap().active(), 125);
    assert_eq!(pools.ledger(1).unwrap().total(), 140);
    assert_eq!(pools.ledger(1).unwrap().unlocking(), vec![UnlockChunk { value: 15, era: 2 }]);
    assert_eq!(pools.member(1, 2), Some((25, vec![UnlockChunk { value: 15, era: 2 }])));
    assert_eq!(pools.bonded_account(1), Some((5000, 141)));
    assert_eq!(book.free_balance(2), 960);
}

#[test]
fn pools_unbond_takes_no_more_than_the_points() {
    let (mut pools, mut book) = one_pool();
    assert_eq!(pools.join(&mut book, 2, 40, 1), Ok(()));
    assert_eq!(pools.unbond(2, 500, 1), Ok(()));
    assert_eq!(pools.member(1, 2), Some((0, vec![UnlockChunk { value: 40, era: 2 }])));
    assert_eq!(pools.ledger(1).unwrap().active(), 100);
    // nothing is left to unbond: the call succeeds and changes nothing
    assert_eq!(pools.unbond(2, 500, 1), Ok(()));
    assert_eq!(pools.member(1, 2), Some((0, vec![UnlockChunk { value: 40, era: 2 }])));
}

#[test]
fn pools_member_unbonding_entries_are_limited() {
    let (mut pools, mut book) = one_pool();
    assert_eq!(pools.join(&mut book, 2, 40, 1), Ok(()));
    assert_eq!(pools.unbond(2, 1, 1), Ok(()));
    assert_eq!(pools.unbond(2, 1, 1), Ok(()));
    assert_eq!(pools.unbond(2, 1, 1), Err(PoolError::MaxUnbondingLimit));
    assert_eq!(pools.member(1, 2).unwrap().0, 38);
    assert_eq!(pools.ledger(1).unwrap().unlocking_len(), 2);
}

#[test]
fn pools_ledger_slots_are_limited() {
    let (mut pools, mut book) = one_pool();
    for who in [2, 3, 4] {
        assert_eq!(pools.join(&mut book, who, 40, 1), Ok(()));
        assert_eq!(pools.unbond(who, 10, 1), Ok(()));
    }
    assert_eq!(pools.unbond(1, 10, 1), Err(PoolError::Staking(StakingError::NoMoreChunks)));
    assert_eq!(pools.member(1, 1), Some((100, vec![])));
    assert_eq!(pools.total_value_locked(), 220);
    assert_eq!(pools.ledger(1).unwrap().active(), 190);
}

#[test]
fn pools_withdraw_pays_what_has_matured() {
    let (mut pools, mut book) = one_pool();
    assert_eq!(pools.join(&mut book, 2, 40, 1), Ok(()));
    assert_eq!(pools.unbond(2, 15, 1), Ok(()));
    pools.start_era(1);
    assert_eq!(pools.unbond(2, 5, 1), Ok(()));
    assert_eq!(pools.withdraw_unbonded(&mut book, 2, 1), Err(PoolError::CannotWithdrawAny));
    pools.start_era(2);
    pools.reset_events();
    assert_eq!(pools.withdraw_unbonded(&mut book, 2, 1), Ok(15));
    assert_eq!(book.free_balance(2), 975);
    assert_eq!(pools.member(1, 2), Some((20, vec![UnlockChunk { value: 5, era: 3 }])));
    assert_eq!(pools.total_value_locked(), 125);
    assert_eq!(pools.ledger(1).unwrap().total(), 125);
    assert_eq!(pools.bonded_account(1), Some((5000, 126)));
    assert_eq!(pools.events(), vec![StakingEvent::Withdrawn { stash: 5000, amount: 15 }]);
    // a second time in the same era there is nothing to pay
    assert_eq!(pools.withdraw_unbonded(&mut book, 2, 1), Err(PoolError::CannotWithdrawAny));
    assert_eq!(pools.total_value_locked(), 125);
}

#[test]
fn pools_member_without_anything_left_leaves() {
    let (mut pools, mut book) = one_pool();
    assert_eq!(pools.join(&mut book, 2, 40, 1), Ok(()));
    assert_eq!(pools.join(&mut book, 3, 7, 1), Ok(()));
    assert_eq!(pools.unbond(2, 40, 1), Ok(()));
    pools.start_era(2);
    assert_eq!(pools.withdraw_unbonded(&mut book, 2, 1), Ok(40));
    assert!(pools.member(1, 2).is_none());
    assert_eq!(pools.member(1, 3), Some((7, vec![])));
    assert_eq!(pools.member(1, 1), Some((100, vec![])));
    assert_eq!(book.free_balance(2), 1000);
    // and may join again
    assert_eq!(pools.join(&mut book, 2, 1, 1), Ok(()));
}

#[test]
fn pools_withdraw_refuses_a_balance_that_would_overflow() {
    let (mut pools, mut book) = one_pool();
    assert_eq!(pools.join(&mut book, 2, 40, 1), Ok(()));
    assert_eq!(pools.unbond(2, 40, 1), Ok(()));
    pools.start_era(2);
    assert!(book.deposit(2, u128::MAX - 960 - 39));
    assert_eq!(pools.withdraw_unbonded(&mut book, 2, 1), Err(PoolError::Overflow));
    assert_eq!(pools.total_value_locked(), 140);
    assert_eq!(pools.member(1, 2), Some((0, vec![UnlockChunk { value: 40, era: 2 }])));
    assert!(book.withdraw(2, 1));
    assert_eq!(pools.withdraw_unbonded(&mut book, 2, 1), Ok(40));
    assert_eq!(book.free_balance(2), u128::MAX);
}

#[test]
fn pools_sweep_by_anyone_lowers_the_total() {
    let (mut pools, mut book) = one_pool();
    assert_eq!(pools.join(&mut book, 2, 40, 1), Ok(()));
    assert_eq!(pools.unbond(2, 15, 1), Ok(()));
    assert_eq!(pools.pool_withdraw_unbonded(1), Ok(0));
    assert_eq!(pools.total_value_locked(), 140);
    pools.start_era(2);
    pools.reset_events();
    assert_eq!(pools.pool_withdraw_unbonded(1), Ok(15));
    assert_eq!(pools.total_value_locked(), 125);
    assert_eq!(pools.ledger(1).unwrap().total(), 125);
    assert_eq!(pools.events(), vec![StakingEvent::Withdrawn { stash: 5000, amount: 15 }]);
    // the funds stay in the pool's account until the member asks for them
    assert_eq!(pools.bonded_account(1), Some((5000, 141)));
    assert_eq!(pools.withdraw_unbonded(&mut book, 2, 1), Ok(15));
    assert_eq!(pools.total_value_locked(), 125);
    assert_eq!(pools.bonded_account(1), Some((5000, 126)));
}

#[test]
fn pools_join_sweeps_what_has_matured() {
    let (mut pools, mut book) = one_pool();
    assert_eq!(pools.join(&mut book, 2, 40, 1), Ok(()));
    assert_eq!(pools.unbond(2, 15, 1), Ok(()));
    pools.start_era(5);
    pools.reset_events();
    assert_eq!(pools.join(&mut book, 3, 30, 1), Ok(()));
    assert_eq!(pools.total_value_locked(), 140 - 15 + 30);
    assert_eq!(pools.ledger(1).unwrap().unlocking_len(), 0);
    assert_eq!(
        pools.events(),
        vec![
            StakingEvent::Withdrawn { stash: 5000, amount: 15 },
            StakingEvent::Bonded { stash: 5000, amount: 30 }
        ]
    );
}

#[test]
fn pools_total_is_the_sum_of_the_ledgers_after_every_call() {
    let mut book = funded(&[1, 2, 3, 4, 5]);
    let mut pools = Pools::new(config());
    assert_eq!(pools.create_at(&mut book, 1, 100, 5000), Ok(1));
    assert_eq!(pools.create_at(&mut book, 2, 200, 5001), Ok(2));
    assert_eq!(pools.total_value_locked(), sum_of_ledgers(&pools));
    for era in 0..12u32 {
        pools.start_era(era);
        for who in 3..=5u64 {
            let id = 1 + (who as u32 + era) % 2;
            let _ = pools.join(&mut book, who, 10 + era as u128, id);
            assert_eq!(pools.total_value_locked(), sum_of_ledgers(&pools));
            let _ = pools.bond_extra(&mut book, who, 3, id);
            assert_eq!(pools.total_value_locked(), sum_of_ledgers(&pools));
            let _ = pools.unbond(who, 7 + who as u128, id);
            assert_eq!(pools.total_value_locked(), sum_of_ledgers(&pools));
            let _ = pools.withdraw_unbonded(&mut book, who, 3 - id);
            assert_eq!(pools.total_value_locked(), sum_of_ledgers(&pools));
        }
        let _ = pools.pool_withdraw_unbonded(1 + era % 2);
        assert_eq!(pools.total_value_locked(), sum_of_ledgers(&pools));
    }
}

#[test]
fn pools_full_exit_restores_total_and_balances() {
    let mut book = funded(&[1, 2, 3, 4]);
    let mut pools = Pools::new(config());
    assert_eq!(pools.create_at(&mut book, 1, 100, 5000), Ok(1));
    let t0 = pools.total_value_locked();
    let before: Vec<u128> = (2..=4).map(|who| book.free_balance(who)).collect();

    assert_eq!(pools.join(&mut book, 2, 300, 1), Ok(()));
    assert_eq!(pools.join(&mut book, 3, 200, 1), Ok(()));
    assert_eq!(pools.join(&mut book, 4, 100, 1), Ok(()));
    assert_eq!(pools.total_value_locked(), t0 + 600);

    assert_eq!(pools.unbond(2, 300, 1), Ok(()));
    pools.start_era(1);
    assert_eq!(pools.unbond(3, 150, 1), Ok(()));
    pools.start_era(2);
    // the unbond of 4 sweeps what 2 has unbonded, without 2 having asked
    assert_eq!(pools.unbond(4, 100, 1), Ok(()));
    assert_eq!(pools.total_value_locked(), t0 + 300);
    assert_eq!(pools.unbond(3, 50, 1), Ok(()));
    pools.start_era(4);
    for who in 2..=4u64 {
        assert!(pools.withdraw_unbonded(&mut book, who, 1).is_ok());
        assert!(pools.member(1, who).is_none());
    }

    assert_eq!(pools.total_value_locked(), t0);
    let after: Vec<u128> = (2..=4).map(|who| book.free_balance(who)).collect();
    assert_eq!(after, before);
    assert_eq!(pools.bonded_account(1), Some((5000, 101)));
    assert_eq!(pools.ledger(1).unwrap().unlocking_len(), 0);
}

#[test]
fn pools_eras_never_run_backwards() {
    let mut pools = Pools::new(config());
    pools.start_era(4);
    pools.start_era(2);
    assert_eq!(pools.current_era(), 4);
}

#[test]
fn pools_report_what_members_do() {
    let (mut pools, mut book) = one_pool();
    assert_eq!(
        pools.pool_events(),
        vec![
            PoolEvent::Created { depositor: 1, pool_id: 1 },
            PoolEvent::Bonded { member: 1, pool_id: 1, bonded: 100, joined: true }
        ]
    );
    pools.reset_events();
    assert_eq!(pools.join(&mut book, 2, 40, 1), Ok(()));
    assert_eq!(pools.bond_extra(&mut book, 2, 2, 1), Ok(()));
    assert_eq!(pools.unbond(2, 42, 1), Ok(()));
    assert_eq!(pools.unbond(2, 1, 1), Ok(()));
    assert_eq!(pools.unbond(3, 1, 1), Err(PoolError::PoolMemberNotFound));
    pools.start_era(2);
    assert_eq!(pools.withdraw_unbonded(&mut book, 2, 1), Ok(42));
    assert_eq!(
        pools.pool_events(),
        vec![
            PoolEvent::Bonded { member: 2, pool_id: 1, bonded: 40, joined: true },
            PoolEvent::Bonded { member: 2, pool_id: 1, bonded: 2, joined: false },
            PoolEvent::Unbonded { member: 2, pool_id: 1, points: 42, era: 2 },
            PoolEvent::Withdrawn { member: 2, pool_id: 1, balance: 42 },
            PoolEvent::MemberRemoved { pool_id: 1, member: 2 }
        ]
    );
    pools.reset_events();
    assert_eq!(pools.pool_events(), vec![]);
    assert_eq!(pools.events(), vec![]);
}

#[test]
fn pools_bonded_account_is_derived_by_the_runtime() {
    let pools = Pools::new(config());
    assert_eq!(pools.generate_bonded_account(1), 7939698191839293293);
    for id in [0u32, 1, 2, 77, u32::MAX] {
        let derived: u64 =
            frame_support::PalletId(*b"py/nopls").into_sub_account_truncating((0u8, id));
        assert_eq!(pools.generate_bonded_account(id), derived);
    }
    let other = Pools::new(PoolConfig { pallet_id: *b"other/id", ..config() });
    assert_ne!(other.generate_bonded_account(1), pools.generate_bonded_account(1));
}

#[test]
fn pools_create_opens_the_pool_at_its_derived_account() {
    let mut book = funded(&[1]);
    let mut pools = Pools::new(config());
    assert_eq!(pools.create(&mut book, 1, 100), Ok(1));
    assert_eq!(pools.bonded_account(1), Some((pools.generate_bonded_account(1), 101)));
    assert_eq!(
        pools.events(),
        vec![StakingEvent::Bonded { stash: 7939698191839293293, amount: 100 }]
    );
    assert_eq!(pools.create(&mut book, 1, 2000), Err(PoolError::InsufficientBalance));
    assert_eq!(pools.pool_count(), 1);
}
