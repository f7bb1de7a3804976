use stake_election::election::{
    ClockSignal, ElectionCompute, ElectionConfig, ElectionController, ElectionError,
    ElectionEvent, Phase, Solution,
};
use stake_election::score::{ElectionScore, Support};

const TICK: ClockSignal = ClockSignal { opens_election: false, era_boundary: false };
const OPEN: ClockSignal = ClockSignal { opens_election: true, era_boundary: false };
const ERA_END: ClockSignal = ClockSignal { opens_election: false, era_boundary: true };

fn controller(signed_window: u32, unsigned_window: u32) -> ElectionController {
    ElectionController::new(ElectionConfig {
        signed_window,
        unsigned_window,
        emergency_throttling: true,
    })
}

fn solution(stakes: &[u128]) -> Solution {
    let supports = stakes
        .iter()
        .enumerate()
        .map(|(i, stake)| Support { validator: i as u64, stake: *stake })
        .collect();
    Solution::from_supports(supports)
}

fn in_unsigned_phase() -> ElectionController {
    let mut c = controller(0, 5);
    assert_eq!(c.advance(OPEN), Phase::Unsigned { window_remaining: 5, submissions_open: true });
    c
}

#[test]
fn election_starts_off_with_nothing_queued() {
    let c = controller(3, 2);
    assert_eq!(c.phase(), Phase::Off);
    assert!(c.phase().is_off());
    assert!(c.queued_solution().is_none());
    assert_eq!(c.accepted(), 0);
    assert_eq!(c.minimum_untrusted_score(), None);
}

#[test]
fn election_phases_follow_the_windows() {
    let mut c = controller(3, 2);
    assert_eq!(c.advance(TICK), Phase::Off);
    assert_eq!(c.advance(OPEN), Phase::Signed(3));
    assert_eq!(c.advance(TICK), Phase::Signed(2));
    // the election is open already: the signal does not open it again
    assert_eq!(c.advance(OPEN), Phase::Signed(1));
    assert_eq!(c.advance(TICK), Phase::Unsigned { window_remaining: 2, submissions_open: true });
    assert_eq!(c.advance(TICK), Phase::Unsigned { window_remaining: 1, submissions_open: true });
    assert_eq!(c.advance(TICK), Phase::Unsigned { window_remaining: 0, submissions_open: false });
    assert_eq!(c.advance(TICK), Phase::Unsigned { window_remaining: 0, submissions_open: false });
    assert!(c.phase().is_unsigned());
    assert!(!c.phase().is_unsigned_open());
}

#[test]
fn election_without_signed_window_opens_unsigned() {
    let mut c = controller(0, 4);
    assert_eq!(c.advance(OPEN), Phase::Unsigned { window_remaining: 4, submissions_open: true });
    let mut closed = controller(0, 0);
    assert_eq!(
        closed.advance(OPEN),
        Phase::Unsigned { window_remaining: 0, submissions_open: false }
    );
}

#[test]
fn election_submit_outside_the_window_is_refused() {
    let mut c = controller(2, 1);
    assert_eq!(c.submit(solution(&[10, 20])), Err(ElectionError::PhaseClosed));
    c.advance(OPEN);
    assert!(c.phase().is_signed());
    assert_eq!(c.submit(solution(&[10, 20])), Err(ElectionError::PhaseClosed));
    c.advance(TICK);
    c.advance(TICK);
    assert!(c.phase().is_unsigned_open());
    c.advance(TICK);
    // the unsigned window has elapsed
    assert_eq!(c.submit(solution(&[10, 20])), Err(ElectionError::PhaseClosed));
    c.advance(ERA_END);
    assert!(c.phase().is_emergency());
    assert_eq!(c.submit(solution(&[10, 20])), Err(ElectionError::PhaseClosed));
    assert_eq!(c.submit_signed(solution(&[10, 20])), Err(ElectionError::PhaseClosed));
    assert!(c.queued_solution().is_none());
}

#[test]
fn election_keeps_the_best_result_not_the_first() {
    let mut c = in_unsigned_phase();
    assert_eq!(c.submit(solution(&[10, 20])), Ok(()));
    assert_eq!(c.queued_solution().unwrap().score.minimal_stake, 10);
    assert_eq!(c.accepted(), 1);
    // a better one replaces it
    assert_eq!(c.submit(solution(&[15, 15])), Ok(()));
    let queued = c.queued_solution().unwrap();
    assert_eq!(
        queued.score,
        ElectionScore { minimal_stake: 15, sum_stake: 30, sum_stake_squared: 450 }
    );
    assert_eq!(queued.compute, ElectionCompute::Unsigned);
    assert_eq!(
        queued.supports,
        vec![Support { validator: 0, stake: 15 }, Support { validator: 1, stake: 15 }]
    );
    assert_eq!(c.accepted(), 2);
    // a worse one and an equal one are refused and change nothing
    assert_eq!(c.submit(solution(&[10, 20])), Err(ElectionError::ScoreTooLow));
    assert_eq!(c.submit(solution(&[15, 15])), Err(ElectionError::ScoreTooLow));
    assert_eq!(c.queued_solution().unwrap().score.minimal_stake, 15);
    assert_eq!(c.accepted(), 2);
}

#[test]
fn election_minimum_score_rejects_what_is_below_it() {
    let mut c = in_unsigned_phase();
    let floor = ElectionScore { minimal_stake: 10, sum_stake: 30, sum_stake_squared: 500 };
    c.set_minimum_untrusted_score(Some(floor));
    assert_eq!(c.minimum_untrusted_score(), Some(floor));
    assert_eq!(c.submit(solution(&[9, 100])), Err(ElectionError::ScoreTooLow));
    assert_eq!(c.submit(solution(&[10, 19])), Err(ElectionError::ScoreTooLow));
    assert!(c.queued_solution().is_none());
    // exactly the minimum is enough
    assert_eq!(c.submit(solution(&[10, 20])), Ok(()));
    assert_eq!(c.queued_solution().unwrap().score, floor);
}

#[test]
fn election_malformed_results_are_refused() {
    let mut c = in_unsigned_phase();
    assert_eq!(c.submit(solution(&[])), Err(ElectionError::Malformed));
    let mut claimed_too_much = solution(&[10, 20]);
    claimed_too_much.score.minimal_stake = 11;
    assert!(!claimed_too_much.is_consistent());
    assert_eq!(c.submit(claimed_too_much), Err(ElectionError::Malformed));
    assert!(c.queued_solution().is_none());
    assert_eq!(c.accepted(), 0);
}

#[test]
fn election_score_is_judged_before_the_supports() {
    let mut c = in_unsigned_phase();
    assert_eq!(c.submit(solution(&[10, 20])), Ok(()));
    // malformed and too low: the score is looked at first
    let mut bad = solution(&[1]);
    bad.score.sum_stake = 0;
    assert_eq!(c.submit(bad), Err(ElectionError::ScoreTooLow));
}

#[test]
fn election_signed_results_are_queued_when_unsigned_opens() {
    let mut c = controller(2, 3);
    c.advance(OPEN);
    assert_eq!(c.submit_signed(solution(&[10, 20])), Ok(()));
    assert_eq!(c.submit_signed(solution(&[10, 19])), Err(ElectionError::ScoreTooLow));
    assert_eq!(c.submit_signed(solution(&[12, 20])), Ok(()));
    assert_eq!(c.submit_signed(solution(&[])), Err(ElectionError::Malformed));
    assert_eq!(c.accepted(), 2);
    // nothing is queued in the signed phase
    assert!(c.queued_solution().is_none());
    c.advance(TICK);
    assert!(c.phase().is_signed());
    assert!(c.queued_solution().is_none());
    c.advance(TICK);
    assert!(c.phase().is_unsigned());
    let queued = c.queued_solution().unwrap();
    assert_eq!(queued.score.minimal_stake, 12);
    assert_eq!(queued.compute, ElectionCompute::Signed);
    // an unsigned result has to beat it
    assert_eq!(c.submit(solution(&[11, 100])), Err(ElectionError::ScoreTooLow));
    assert_eq!(c.submit(solution(&[13, 13])), Ok(()));
    assert_eq!(c.queued_solution().unwrap().compute, ElectionCompute::Unsigned);
}

#[test]
fn election_era_end_commits_the_queued_result() {
    let mut c = in_unsigned_phase();
    assert_eq!(c.submit(solution(&[10, 20])), Ok(()));
    assert_eq!(c.advance(ERA_END), Phase::Off);
    assert!(c.queued_solution().is_none());
    assert_eq!(c.accepted(), 0);
    let result = c.take_result().unwrap();
    assert_eq!(result.score.sum_stake, 30);
    assert_eq!(result.supports.len(), 2);
    assert!(c.take_result().is_none());
}

#[test]
fn election_era_end_in_the_signed_phase_commits_the_signed_result() {
    let mut c = controller(5, 5);
    c.advance(OPEN);
    assert_eq!(c.submit_signed(solution(&[10, 20])), Ok(()));
    assert_eq!(c.advance(ERA_END), Phase::Off);
    assert_eq!(c.take_result().unwrap().compute, ElectionCompute::Signed);
}

#[test]
fn election_era_end_without_a_result_is_an_emergency() {
    let mut c = in_unsigned_phase();
    assert_eq!(c.advance(ERA_END), Phase::Emergency);
    assert!(c.take_result().is_none());
    // nothing but an intervention leads on
    assert_eq!(c.advance(TICK), Phase::Emergency);
    assert_eq!(c.advance(OPEN), Phase::Emergency);
    assert_eq!(c.advance(ERA_END), Phase::Emergency);
    assert!(c.queued_solution().is_none());
    let mut off = controller(1, 1);
    assert_eq!(off.advance(ERA_END), Phase::Emergency);
}

#[test]
fn election_minimum_score_applies_when_the_era_ends() {
    let mut c = in_unsigned_phase();
    assert_eq!(c.submit(solution(&[10, 20])), Ok(()));
    c.set_minimum_untrusted_score(Some(ElectionScore {
        minimal_stake: 11,
        sum_stake: 0,
        sum_stake_squared: 0,
    }));
    assert_eq!(c.advance(ERA_END), Phase::Emergency);
    assert!(c.queued_solution().is_none());
    assert!(c.take_result().is_none());
}

#[test]
fn election_emergency_ends_with_a_result_from_outside() {
    let mut c = in_unsigned_phase();
    c.set_minimum_untrusted_score(Some(ElectionScore {
        minimal_stake: 1000,
        sum_stake: 0,
        sum_stake_squared: 0,
    }));
    assert_eq!(c.resolve_emergency(solution(&[1, 2])), Err(ElectionError::CallNotAllowed));
    c.advance(ERA_END);
    assert!(c.phase().is_emergency());
    assert_eq!(c.resolve_emergency(solution(&[])), Err(ElectionError::Malformed));
    assert!(c.phase().is_emergency());
    // the minimum score does not bind governance
    assert_eq!(c.resolve_emergency(solution(&[1, 2])), Ok(()));
    assert_eq!(c.phase(), Phase::Off);
    assert!(c.queued_solution().is_none());
    // the result waits for the end of the era, and stands
    assert_eq!(c.advance(ERA_END), Phase::Off);
    let result = c.take_result().unwrap();
    assert_eq!(result.compute, ElectionCompute::Emergency);
    assert_eq!(result.score.sum_stake, 3);
}

#[test]
fn election_retry_is_allowed_only_without_throttling() {
    let mut throttled = in_unsigned_phase();
    throttled.advance(ERA_END);
    assert_eq!(throttled.force_retry(), Err(ElectionError::CallNotAllowed));
    assert!(throttled.phase().is_emergency());

    let mut free = ElectionController::new(ElectionConfig {
        signed_window: 0,
        unsigned_window: 5,
        emergency_throttling: false,
    });
    assert_eq!(free.force_retry(), Err(ElectionError::CallNotAllowed));
    free.advance(OPEN);
    free.advance(ERA_END);
    assert!(free.phase().is_emergency());
    assert_eq!(free.force_retry(), Ok(()));
    assert_eq!(free.phase(), Phase::Off);
    assert!(free.take_result().is_none());
    // the next cycle runs as any other
    free.advance(OPEN);
    assert_eq!(free.submit(solution(&[10])), Ok(()));
    assert_eq!(free.advance(ERA_END), Phase::Off);
    assert!(free.take_result().is_some());
}

#[test]
fn election_queued_only_in_unsigned_phase_with_a_candidate() {
    let mut c = controller(3, 3);
    let signals = [TICK, OPEN, TICK, TICK, TICK, TICK, TICK, ERA_END, TICK, OPEN, TICK, ERA_END];
    for (n, signal) in signals.iter().enumerate() {
        let phase = c.advance(*signal);
        if phase.is_signed() {
            let _ = c.submit_signed(solution(&[10 + n as u128]));
        }
        if phase.is_unsigned_open() {
            let _ = c.submit(solution(&[20 + n as u128]));
        }
        assert_eq!(
            c.queued_solution().is_some(),
            c.phase().is_unsigned() && c.accepted() > 0
        );
    }
    assert!(c.phase().is_off());
}

#[test]
fn score_of_supports_is_minimum_sum_and_squares() {
    let score = ElectionScore::of(&vec![
        Support { validator: 1, stake: 30 },
        Support { validator: 2, stake: 10 },
        Support { validator: 3, stake: 20 },
    ]);
    assert_eq!(score, ElectionScore { minimal_stake: 10, sum_stake: 60, sum_stake_squared: 1400 });
    assert_eq!(
        ElectionScore::of(&vec![]),
        ElectionScore { minimal_stake: u128::MAX, sum_stake: 0, sum_stake_squared: 0 }
    );
}

#[test]
fn score_sums_stop_at_the_largest_balance() {
    let score = ElectionScore::of(&vec![
        Support { validator: 1, stake: u128::MAX },
        Support { validator: 2, stake: 2 },
    ]);
    assert_eq!(
        score,
        ElectionScore { minimal_stake: 2, sum_stake: u128::MAX, sum_stake_squared: u128::MAX }
    );
    let big = 1u128 << 64;
    assert_eq!(
        ElectionScore::of(&vec![Support { validator: 1, stake: big }]),
        ElectionScore { minimal_stake: big, sum_stake: big, sum_stake_squared: u128::MAX }
    );
}

#[test]
fn score_order_prefers_minimum_then_sum_then_flatness() {
    let base = ElectionScore { minimal_stake: 10, sum_stake: 100, sum_stake_squared: 1000 };
    let higher_min = ElectionScore { minimal_stake: 11, sum_stake: 1, sum_stake_squared: 9999 };
    let higher_sum = ElectionScore { minimal_stake: 10, sum_stake: 101, sum_stake_squared: 9999 };
    let flatter = ElectionScore { minimal_stake: 10, sum_stake: 100, sum_stake_squared: 999 };
    assert!(higher_min.is_better(&base));
    assert!(!base.is_better(&higher_min));
    assert!(higher_sum.is_better(&base));
    assert!(!base.is_better(&higher_sum));
    assert!(flatter.is_better(&base));
    assert!(!base.is_better(&flatter));
    assert!(!base.is_better(&base));
    assert!(base.is_at_least(&base));
    assert!(flatter.is_at_least(&base));
    assert!(!base.is_at_least(&flatter));
    assert!(higher_min.is_better(&higher_sum));
    assert!(higher_sum.is_better(&flatter));
}

#[test]
fn score_order_agrees_with_the_runtime_order() {
    let scores = [
        (10u128, 100u128, 1000u128),
        (10, 100, 999),
        (10, 101, 1000),
        (11, 1, 5),
        (0, 0, 0),
        (10, 100, 1000),
    ];
    for a in scores {
        for b in scores {
            let ours = ElectionScore { minimal_stake: a.0, sum_stake: a.1, sum_stake_squared: a.2 }
                .is_better(&ElectionScore {
                    minimal_stake: b.0,
                    sum_stake: b.1,
                    sum_stake_squared: b.2,
                });
            let theirs = sp_npos_elections::ElectionScore {
                minimal_stake: a.0,
                sum_stake: a.1,
                sum_stake_squared: a.2,
            } > sp_npos_elections::ElectionScore {
                minimal_stake: b.0,
                sum_stake: b.1,
                sum_stake_squared: b.2,
            };
            assert_eq!(ours, theirs);
        }
    }
}

#[test]
fn score_of_supports_agrees_with_the_runtime_evaluation() {
    let cases: Vec<Vec<u128>> = vec![
        vec![],
        vec![7],
        vec![30, 10, 20],
        vec![u128::MAX, 2],
        vec![1u128 << 64, 1u128 << 63, 5],
        vec![u128::MAX / 2, u128::MAX / 2, 3],
    ];
    for stakes in cases {
        let ours = ElectionScore::of(
            &stakes
                .iter()
                .enumerate()
                .map(|(i, stake)| Support { validator: i as u64, stake: *stake })
                .collect(),
        );
        let supports: Vec<(u64, sp_npos_elections::Support<u64>)> = stakes
            .iter()
            .enumerate()
            .map(|(i, stake)| {
                (i as u64, sp_npos_elections::Support { total: *stake, voters: vec![(0, *stake)] })
            })
            .collect();
        let theirs = sp_npos_elections::EvaluateSupport::evaluate(&supports);
        assert_eq!(ours.minimal_stake, theirs.minimal_stake);
        assert_eq!(ours.sum_stake, theirs.sum_stake);
        assert_eq!(ours.sum_stake_squared, theirs.sum_stake_squared);
    }
}

#[test]
fn election_reports_what_it_does() {
    let mut c = controller(1, 2);
    c.advance(TICK);
    assert_eq!(c.events(), vec![]);
    c.advance(OPEN);
    assert_eq!(c.submit_signed(solution(&[10])), Ok(()));
    assert_eq!(c.submit_signed(solution(&[9])), Err(ElectionError::ScoreTooLow));
    c.advance(TICK);
    assert_eq!(c.submit(solution(&[11])), Ok(()));
    c.advance(TICK);
    c.advance(ERA_END);
    c.advance(OPEN);
    c.advance(ERA_END);
    let first = ElectionScore { minimal_stake: 10, sum_stake: 10, sum_stake_squared: 100 };
    let second = ElectionScore { minimal_stake: 11, sum_stake: 11, sum_stake_squared: 121 };
    let unsigned = Phase::Unsigned { window_remaining: 2, submissions_open: true };
    assert_eq!(
        c.events(),
        vec![
            ElectionEvent::PhaseTransitioned { from: Phase::Off, to: Phase::Signed(1) },
            ElectionEvent::SolutionStored {
                compute: ElectionCompute::Signed,
                score: first,
                replaced: false
            },
            ElectionEvent::PhaseTransitioned { from: Phase::Signed(1), to: unsigned },
            ElectionEvent::SolutionStored {
                compute: ElectionCompute::Unsigned,
                score: second,
                replaced: true
            },
            ElectionEvent::ElectionFinalized { compute: ElectionCompute::Unsigned, score: second },
            ElectionEvent::PhaseTransitioned {
                from: Phase::Unsigned { window_remaining: 1, submissions_open: true },
                to: Phase::Off
            },
        ]
    );
    // the result has not been taken: no election opens, and the end of the era changes
    // nothing
    assert!(c.take_result().is_some());
    c.reset_events();
    c.advance(ERA_END);
    assert_eq!(
        c.events(),
        vec![
            ElectionEvent::ElectionFailed,
            ElectionEvent::PhaseTransitioned { from: Phase::Off, to: Phase::Emergency }
        ]
    );
    c.reset_events();
    assert_eq!(c.resolve_emergency(solution(&[5])), Ok(()));
    assert_eq!(
        c.events(),
        vec![
            ElectionEvent::ElectionFinalized {
                compute: ElectionCompute::Emergency,
                score: ElectionScore { minimal_stake: 5, sum_stake: 5, sum_stake_squared: 25 }
            },
            ElectionEvent::PhaseTransitioned { from: Phase::Emergency, to: Phase::Off }
        ]
    );
}
