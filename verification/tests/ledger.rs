use stake_election::ledger::{StakingError, StakingLedger, UnbondRules, Unbonded, UnlockChunk};

fn rules(min_active: u128, max_chunks: u32, bonding_duration: u32) -> UnbondRules {
    UnbondRules { min_active, max_chunks, bonding_duration }
}

#[test]
fn ledger_new_bonds_everything() {
    let ledger = StakingLedger::new(1000);
    assert_eq!(ledger.total(), 1000);
    assert_eq!(ledger.active(), 1000);
    assert_eq!(ledger.unlocking_len(), 0);
    assert_eq!(ledger.unlocking(), vec![]);
}

#[test]
fn ledger_unbond_moves_value_to_a_chunk() {
    let mut ledger = StakingLedger::new(1000);
    let done = ledger.unbond(300, 5, &rules(0, 32, 3));
    assert_eq!(done, Ok(Unbonded { withdrawn: 0, unbonded: 300 }));
    assert_eq!(ledger.active(), 700);
    assert_eq!(ledger.total(), 1000);
    assert_eq!(ledger.unlocking(), vec![UnlockChunk { value: 300, era: 8 }]);
}

#[test]
fn ledger_unbond_appends_in_order() {
    let mut ledger = StakingLedger::new(1000);
    assert!(ledger.unbond(100, 1, &rules(0, 32, 3)).is_ok());
    assert!(ledger.unbond(200, 1, &rules(0, 32, 3)).is_ok());
    assert!(ledger.unbond(50, 2, &rules(0, 32, 3)).is_ok());
    assert_eq!(
        ledger.unlocking(),
        vec![
            UnlockChunk { value: 100, era: 4 },
            UnlockChunk { value: 200, era: 4 },
            UnlockChunk { value: 50, era: 5 }
        ]
    );
    assert_eq!(ledger.active(), 650);
    assert_eq!(ledger.total(), 1000);
}

#[test]
fn ledger_unbond_takes_no_more_than_is_active() {
    let mut ledger = StakingLedger::new(1000);
    let done = ledger.unbond(5000, 0, &rules(0, 32, 3));
    assert_eq!(done, Ok(Unbonded { withdrawn: 0, unbonded: 1000 }));
    assert_eq!(ledger.active(), 0);
    assert_eq!(ledger.total(), 1000);
}

#[test]
fn ledger_unbond_of_nothing_adds_no_chunk() {
    let mut ledger = StakingLedger::new(1000);
    let done = ledger.unbond(0, 0, &rules(0, 32, 3));
    assert_eq!(done, Ok(Unbonded { withdrawn: 0, unbonded: 0 }));
    assert_eq!(ledger.unlocking_len(), 0);
    assert_eq!(ledger.active(), 1000);
}

#[test]
fn ledger_unbond_keeps_the_minimum() {
    let mut ledger = StakingLedger::new(1000);
    assert_eq!(ledger.unbond(501, 0, &rules(500, 32, 3)), Err(StakingError::InsufficientBond));
    assert_eq!(ledger.active(), 1000);
    assert_eq!(ledger.total(), 1000);
    assert_eq!(ledger.unlocking_len(), 0);
    // down to the minimum exactly is allowed
    assert_eq!(
        ledger.unbond(500, 0, &rules(500, 32, 3)),
        Ok(Unbonded { withdrawn: 0, unbonded: 500 })
    );
    assert_eq!(ledger.active(), 500);
}

#[test]
fn ledger_unbond_fails_when_every_slot_is_taken() {
    let mut ledger = StakingLedger::new(1000);
    assert!(ledger.unbond(100, 0, &rules(0, 2, 3)).is_ok());
    assert!(ledger.unbond(100, 1, &rules(0, 2, 3)).is_ok());
    assert_eq!(ledger.unbond(100, 2, &rules(0, 2, 3)), Err(StakingError::NoMoreChunks));
    assert_eq!(ledger.active(), 800);
    assert_eq!(ledger.total(), 1000);
    assert_eq!(ledger.unlocking_len(), 2);
    // in era 3 the first chunk has matured: it is withdrawn to make room
    assert_eq!(
        ledger.unbond(100, 3, &rules(0, 2, 3)),
        Ok(Unbonded { withdrawn: 100, unbonded: 100 })
    );
    assert_eq!(
        ledger.unlocking(),
        vec![UnlockChunk { value: 100, era: 4 }, UnlockChunk { value: 100, era: 6 }]
    );
    assert_eq!(ledger.active(), 700);
    assert_eq!(ledger.total(), 900);
}

#[test]
fn ledger_insufficient_bond_is_reported_before_no_more_chunks() {
    let mut ledger = StakingLedger::new(1000);
    assert!(ledger.unbond(100, 0, &rules(0, 1, 3)).is_ok());
    assert_eq!(ledger.unbond(900, 0, &rules(500, 1, 3)), Err(StakingError::InsufficientBond));
    assert_eq!(ledger.unbond(100, 0, &rules(500, 1, 3)), Err(StakingError::NoMoreChunks));
}

#[test]
fn ledger_refused_unbond_does_not_sweep() {
    let mut ledger = StakingLedger::new(1000);
    assert!(ledger.unbond(100, 0, &rules(0, 32, 1)).is_ok());
    // the chunk has matured in era 5, but the request is refused and nothing moves
    assert_eq!(ledger.unbond(900, 5, &rules(500, 32, 1)), Err(StakingError::InsufficientBond));
    assert_eq!(ledger.total(), 1000);
    assert_eq!(ledger.unlocking_len(), 1);
}

#[test]
fn ledger_sweep_removes_what_has_matured() {
    let mut ledger = StakingLedger::new(1000);
    assert!(ledger.unbond(100, 0, &rules(0, 32, 3)).is_ok());
    assert!(ledger.unbond(200, 1, &rules(0, 32, 4)).is_ok());
    assert!(ledger.unbond(300, 1, &rules(0, 32, 6)).is_ok());
    assert_eq!(ledger.withdrawable(2), 0);
    assert_eq!(ledger.withdrawable(3), 100);
    assert_eq!(ledger.withdrawable(5), 300);
    assert_eq!(ledger.withdrawable(7), 600);
    assert_eq!(ledger.sweep(5), 300);
    assert_eq!(ledger.total(), 700);
    assert_eq!(ledger.active(), 400);
    assert_eq!(ledger.unlocking(), vec![UnlockChunk { value: 300, era: 7 }]);
}

#[test]
fn ledger_second_sweep_in_an_era_finds_nothing() {
    let mut ledger = StakingLedger::new(1000);
    assert!(ledger.unbond(100, 0, &rules(0, 32, 3)).is_ok());
    assert!(ledger.unbond(200, 2, &rules(0, 32, 3)).is_ok());
    assert_eq!(ledger.sweep(3), 100);
    assert_eq!(ledger.sweep(3), 0);
    assert_eq!(ledger.total(), 900);
    assert_eq!(ledger.unlocking(), vec![UnlockChunk { value: 200, era: 5 }]);
}

#[test]
fn ledger_total_is_active_plus_unlocking() {
    let mut ledger = StakingLedger::new(1000);
    for era in 0..10u32 {
        let _ = ledger.unbond(70, era, &rules(0, 4, 2));
        let _ = ledger.bond_extra(30, era);
        let unlocking: u128 = ledger.unlocking().iter().map(|c| c.value).sum();
        assert_eq!(ledger.total(), ledger.active() + unlocking);
    }
}

#[test]
fn ledger_bond_extra_sweeps_first() {
    let mut ledger = StakingLedger::new(1000);
    assert!(ledger.unbond(400, 0, &rules(0, 32, 3)).is_ok());
    assert_eq!(ledger.bond_extra(50, 3), Ok(400));
    assert_eq!(ledger.active(), 650);
    assert_eq!(ledger.total(), 650);
    assert_eq!(ledger.unlocking_len(), 0);
}

#[test]
fn ledger_bond_extra_refuses_overflow() {
    let mut ledger = StakingLedger::new(u128::MAX);
    assert_eq!(ledger.bond_extra(1, 0), Err(StakingError::Overflow));
    assert_eq!(ledger.total(), u128::MAX);
    assert_eq!(ledger.bond_extra(0, 0), Ok(0));
}

#[test]
fn ledger_slash_takes_from_the_active_bond() {
    let mut ledger = StakingLedger::new(1000);
    assert!(ledger.unbond(400, 0, &rules(0, 32, 3)).is_ok());
    assert_eq!(ledger.slash(100), 100);
    assert_eq!(ledger.active(), 500);
    assert_eq!(ledger.total(), 900);
    assert_eq!(ledger.slash(10_000), 500);
    assert_eq!(ledger.active(), 0);
    assert_eq!(ledger.total(), 400);
}

#[test]
fn ledger_unlock_era_stops_at_the_last_era() {
    let mut ledger = StakingLedger::new(1000);
    assert!(ledger.unbond(100, u32::MAX - 1, &rules(0, 32, 5)).is_ok());
    assert_eq!(ledger.unlocking(), vec![UnlockChunk { value: 100, era: u32::MAX }]);
}

#[test]
fn ledger_copy_is_equal_in_content() {
    let mut ledger = StakingLedger::new(1000);
    assert!(ledger.unbond(100, 0, &rules(0, 32, 3)).is_ok());
    let copy = ledger.copy();
    assert_eq!(copy.total(), 1000);
    assert_eq!(copy.active(), 900);
    assert_eq!(copy.unlocking(), ledger.unlocking());
}
