use stake_election::clock::{BlockSignal, ClockConfig, EraClock};
use stake_election::disabling::Forcing;

fn clock() -> EraClock {
    EraClock::new(ClockConfig { period: 5, sessions_per_era: 3, election_lead: 4 })
}

#[test]
fn clock_starts_before_the_first_block() {
    let clock = clock();
    assert_eq!(clock.block_number(), 0);
    assert_eq!(clock.current_index(), 0);
    assert_eq!(clock.active_era(), 0);
}

#[test]
fn clock_sessions_end_with_every_period() {
    let mut clock = clock();
    for block in 1..=14u32 {
        let signal = clock.tick(Forcing::NotForcing);
        assert_eq!(clock.block_number(), block);
        assert_eq!(signal.session_end, block % 5 == 0);
        assert!(!signal.era_boundary);
        if signal.session_end {
            clock.end_session(false);
        }
    }
    assert_eq!(clock.current_index(), 2);
    assert_eq!(clock.active_era(), 0);
}

#[test]
fn clock_era_ends_with_its_last_session() {
    let mut clock = clock();
    let mut boundaries = vec![];
    let mut openings = vec![];
    for block in 1..=30u32 {
        let signal = clock.tick(Forcing::NotForcing);
        if signal.opens_election {
            openings.push(block);
        }
        if signal.era_boundary {
            boundaries.push(block);
        }
        if signal.session_end {
            clock.end_session(signal.era_boundary);
        }
    }
    assert_eq!(boundaries, vec![15, 30]);
    // the election may open in the last four blocks of an era
    assert_eq!(openings, vec![11, 12, 13, 14, 26, 27, 28, 29]);
    assert_eq!(clock.active_era(), 2);
    assert_eq!(clock.current_index(), 6);
}

#[test]
fn clock_era_that_does_not_rotate_is_due_again() {
    let mut clock = clock();
    let mut boundaries = vec![];
    for block in 1..=25u32 {
        let signal = clock.tick(Forcing::NotForcing);
        if signal.era_boundary {
            boundaries.push(block);
        }
        if signal.session_end {
            clock.end_session(false);
        }
    }
    // the election gave no result: sessions go on, the era does not, and it is due with
    // every session
    assert_eq!(boundaries, vec![15, 20, 25]);
    assert_eq!(clock.active_era(), 0);
    assert_eq!(clock.current_index(), 5);
}

#[test]
fn clock_forced_era_ends_with_the_next_session() {
    let mut clock = clock();
    for _ in 1..5 {
        // the era ends with this session: the election may open at once
        assert_eq!(
            clock.tick(Forcing::ForceNew),
            BlockSignal { session_end: false, era_boundary: false, opens_election: true }
        );
    }
    assert_eq!(
        clock.tick(Forcing::ForceNew),
        BlockSignal { session_end: true, era_boundary: true, opens_election: false }
    );
    clock.end_session(true);
    assert_eq!(clock.active_era(), 1);
    assert_eq!(clock.current_index(), 1);
    // the new era is scheduled from the session with which it began
    let mut boundaries = vec![];
    for block in 6..=20u32 {
        let signal = clock.tick(Forcing::NotForcing);
        if signal.era_boundary {
            boundaries.push(block);
        }
        if signal.session_end {
            clock.end_session(signal.era_boundary);
        }
    }
    assert_eq!(boundaries, vec![20]);
}

#[test]
fn clock_held_eras_never_end() {
    let mut clock = clock();
    for block in 1..=40u32 {
        let signal = clock.tick(Forcing::ForceNone);
        assert!(!signal.era_boundary);
        assert!(!signal.opens_election);
        assert_eq!(signal.session_end, block % 5 == 0);
        if signal.session_end {
            clock.end_session(false);
        }
    }
    assert_eq!(clock.active_era(), 0);
    assert_eq!(clock.current_index(), 8);
}

#[test]
fn clock_without_period_has_no_sessions() {
    let mut clock = EraClock::new(ClockConfig { period: 0, sessions_per_era: 3, election_lead: 4 });
    for _ in 0..10 {
        let signal = clock.tick(Forcing::ForceNew);
        assert!(!signal.session_end);
        assert!(!signal.era_boundary);
    }
    assert_eq!(clock.block_number(), 10);
}

#[test]
fn clock_overdue_era_lets_the_election_open_in_every_session() {
    let mut clock = clock();
    let mut openings = vec![];
    for block in 1..=25u32 {
        let signal = clock.tick(Forcing::NotForcing);
        if signal.opens_election {
            openings.push(block);
        }
        if signal.session_end {
            clock.end_session(false);
        }
    }
    assert_eq!(openings, vec![11, 12, 13, 14, 16, 17, 18, 19, 21, 22, 23, 24]);
}

#[test]
fn clock_short_lead_opens_late() {
    let mut clock = EraClock::new(ClockConfig { period: 5, sessions_per_era: 2, election_lead: 1 });
    let mut openings = vec![];
    for block in 1..=20u32 {
        let signal = clock.tick(Forcing::NotForcing);
        if signal.opens_election {
            openings.push(block);
        }
        if signal.session_end {
            clock.end_session(signal.era_boundary);
        }
    }
    assert_eq!(openings, vec![9, 19]);
}
