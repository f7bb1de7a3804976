//! The election phase controller: the phases of one election cycle, the
//! candidate results that are accepted on the way, and what is committed, or
//! not, when the era ends.
//!
//! The controller keeps the best result seen so far, not the first. Results
//! handed in during the signed phase wait in a slot of their own and are
//! queued when the unsigned phase opens, so a queued result exists only in the
//! unsigned phase.

use crate::score::{score_of, ElectionScore, Support};
use vstd::prelude::*;

verus! {

/// Where the election stands.
#[derive(Clone, Copy, Debug, PartialEq, Eq, Structural)]
pub enum Phase {
    /// No election is under way.
    Off,
    /// Signed results are taken for this many more blocks.
    Signed(u32),
    /// Unsigned results are taken while `submissions_open`, for
    /// `window_remaining` more blocks.
    Unsigned { window_remaining: u32, submissions_open: bool },
    /// The era ended without an acceptable result. Only an outside
    /// intervention leads on from here.
    Emergency,
}

impl Phase {
    pub fn is_off(&self) -> (b: bool)
        ensures
            b == (*self is Off),
    {
        match self {
            Phase::Off => true,
            _ => false,
        }
    }

    pub fn is_signed(&self) -> (b: bool)
        ensures
            b == (*self is Signed),
    {
        match self {
            Phase::Signed(_) => true,
            _ => false,
        }
    }

    pub fn is_unsigned(&self) -> (b: bool)
        ensures
            b == (*self is Unsigned),
    {
        match self {
            Phase::Unsigned { .. } => true,
            _ => false,
        }
    }

    /// Whether the phase is the unsigned one and still takes results.
    pub fn is_unsigned_open(&self) -> (b: bool)
        ensures
            b == (*self matches Phase::Unsigned { submissions_open, .. } && submissions_open),
    {
        match self {
            Phase::Unsigned { submissions_open, .. } => *submissions_open,
            _ => false,
        }
    }

    pub fn is_emergency(&self) -> (b: bool)
        ensures
            b == (*self is Emergency),
    {
        match self {
            Phase::Emergency => true,
            _ => false,
        }
    }
}

/// Who produced a result.
#[derive(Clone, Copy, Debug, PartialEq, Eq, Structural)]
pub enum ElectionCompute {
    /// Handed in during the signed phase.
    Signed,
    /// Handed in during the unsigned phase.
    Unsigned,
    /// Provided from outside to end an emergency.
    Emergency,
}

/// What the controller reports of what it did.
#[derive(Clone, Copy, Debug, PartialEq, Eq, Structural)]
pub enum ElectionEvent {
    /// The election went from one phase to another.
    PhaseTransitioned { from: Phase, to: Phase },
    /// A result was accepted. `replaced` says whether it took the place of
    /// one that was held.
    SolutionStored { compute: ElectionCompute, score: ElectionScore, replaced: bool },
    /// The era ended with this result, or an emergency with it.
    ElectionFinalized { compute: ElectionCompute, score: ElectionScore },
    /// The era ended without an acceptable result.
    ElectionFailed,
}

/// Whether two phases are the same but for what is left of their windows.
pub open spec fn same_kind(a: Phase, b: Phase) -> bool {
    match (a, b) {
        (Phase::Off, Phase::Off) => true,
        (Phase::Signed(_), Phase::Signed(_)) => true,
        (Phase::Unsigned { .. }, Phase::Unsigned { .. }) => true,
        (Phase::Emergency, Phase::Emergency) => true,
        _ => false,
    }
}

/// Why the controller refused a call. A refused call changes nothing.
#[derive(Clone, Copy, Debug, PartialEq, Eq, Structural)]
pub enum ElectionError {
    /// The phase does not take results of this kind.
    PhaseClosed,
    /// The score is below the minimum, or no better than what is held.
    ScoreTooLow,
    /// The result is empty or its score is not the score of its supports.
    Malformed,
    /// The intervention is not allowed in this phase or by the configuration.
    CallNotAllowed,
}

/// The lengths of the windows, in blocks, and whether leaving an emergency is
/// throttled.
#[derive(Clone, Copy, Debug, PartialEq, Eq, Structural)]
pub struct ElectionConfig {
    pub signed_window: u32,
    pub unsigned_window: u32,
    /// While set, an emergency ends only with a result provided from outside.
    pub emergency_throttling: bool,
}

/// What the clock says of the block that begins.
#[derive(Clone, Copy, Debug, PartialEq, Eq, Structural)]
pub struct ClockSignal {
    /// The era is to end soon enough for an election to open, if none is
    /// under way.
    pub opens_election: bool,
    /// The era ends with this block.
    pub era_boundary: bool,
}

/// A candidate result as its producer hands it in.
#[derive(Debug)]
pub struct Solution {
    pub supports: Vec<Support>,
    pub score: ElectionScore,
}

/// A result that the controller has accepted.
#[derive(Debug)]
pub struct ReadySolution {
    pub supports: Vec<Support>,
    pub score: ElectionScore,
    pub compute: ElectionCompute,
}

/// The mathematical content of an accepted result.
pub struct SolutionView {
    pub supports: Seq<Support>,
    pub score: ElectionScore,
    pub compute: ElectionCompute,
}

impl View for ReadySolution {
    type V = SolutionView;

    open spec fn view(&self) -> SolutionView {
        SolutionView { supports: self.supports@, score: self.score, compute: self.compute }
    }
}

/// The content of an optional result.
pub open spec fn view_of(solution: Option<ReadySolution>) -> Option<SolutionView> {
    match solution {
        Some(s) => Some(s@),
        None => None,
    }
}

/// Whether a result is sound in itself: it elects somebody, and the score it
/// claims is the score of its supports.
pub open spec fn consistent(supports: Seq<Support>, score: ElectionScore) -> bool {
    supports.len() > 0 && score == score_of(supports)
}

/// Whether `score` ranks strictly above the result that is held, if any.
pub open spec fn beats(held: Option<SolutionView>, score: ElectionScore) -> bool {
    match held {
        Some(h) => score.better(h.score),
        None => true,
    }
}

/// The mathematical content of the controller.
pub struct ControllerView {
    pub config: ElectionConfig,
    pub phase: Phase,
    /// The best result accepted so far in the unsigned phase.
    pub queued: Option<SolutionView>,
    /// The best result accepted so far in the signed phase.
    pub signed_best: Option<SolutionView>,
    /// The score below which no result is accepted or committed.
    pub minimum_score: Option<ElectionScore>,
    /// How many results were accepted in this cycle.
    pub accepted: u64,
    /// The result of the last election, until the session layer takes it.
    pub committed: Option<SolutionView>,
    /// What the controller reported, oldest first.
    pub events: Seq<ElectionEvent>,
}

impl ControllerView {
    /// A result is queued exactly in the unsigned phase after at least one was
    /// accepted; the signed slot is filled exactly in the signed phase after
    /// at least one was accepted; what is held is sound in itself; and a
    /// committed result waits to be taken only while the election is off.
    pub open spec fn wf(self) -> bool {
        &&& match self.phase {
            Phase::Off => self.queued is None && self.signed_best is None && self.accepted == 0,
            Phase::Signed(_) => self.queued is None && (self.signed_best is Some <==> self.accepted
                > 0),
            Phase::Unsigned { .. } => self.signed_best is None && (self.queued is Some
                <==> self.accepted > 0),
            Phase::Emergency => self.queued is None && self.signed_best is None && self.accepted
                == 0,
        }
        &&& self.queued matches Some(q) ==> consistent(q.supports, q.score)
        &&& self.signed_best matches Some(s) ==> consistent(s.supports, s.score)
        &&& self.committed is Some ==> self.phase is Off
    }

    /// The controller before the first election.
    pub open spec fn initial(config: ElectionConfig) -> ControllerView {
        ControllerView {
            config,
            phase: Phase::Off,
            queued: None,
            signed_best: None,
            minimum_score: None,
            accepted: 0,
            committed: None,
            events: Seq::empty(),
        }
    }

    /// The controller with `event` reported.
    pub open spec fn noting(self, event: ElectionEvent) -> ControllerView {
        ControllerView { events: self.events.push(event), ..self }
    }

    /// The controller with the step from the phase `from` reported, if it
    /// led to a phase of another kind.
    pub open spec fn noting_transition(self, from: Phase) -> ControllerView {
        if same_kind(from, self.phase) {
            self
        } else {
            self.noting(ElectionEvent::PhaseTransitioned { from, to: self.phase })
        }
    }

    /// Whether `score` is at least the minimum, if one is set.
    pub open spec fn clears_floor(self, score: ElectionScore) -> bool {
        match self.minimum_score {
            Some(floor) => score.at_least(floor),
            None => true,
        }
    }

    /// The count of accepted results after one more.
    pub open spec fn counted(self) -> u64 {
        if self.accepted < u64::MAX {
            (self.accepted + 1) as u64
        } else {
            self.accepted
        }
    }

    /// An unsigned result is handed in.
    ///
    /// Refused with `PhaseClosed` unless the unsigned phase takes results;
    /// otherwise with `ScoreTooLow` if the score is below the minimum or does
    /// not rank above the queued result; otherwise with `Malformed` if the
    /// result is not sound in itself. An accepted result replaces the queued
    /// one.
    pub open spec fn submit(self, supports: Seq<Support>, score: ElectionScore) -> (
        ControllerView,
        Result<(), ElectionError>,
    ) {
        if !(self.phase matches Phase::Unsigned { submissions_open, .. } && submissions_open) {
            (self, Err(ElectionError::PhaseClosed))
        } else if !self.clears_floor(score) || !beats(self.queued, score) {
            (self, Err(ElectionError::ScoreTooLow))
        } else if !consistent(supports, score) {
            (self, Err(ElectionError::Malformed))
        } else {
            (
                ControllerView {
                    queued: Some(
                        SolutionView { supports, score, compute: ElectionCompute::Unsigned },
                    ),
                    accepted: self.counted(),
                    ..self
                }.noting(
                    ElectionEvent::SolutionStored {
                        compute: ElectionCompute::Unsigned,
                        score,
                        replaced: self.queued is Some,
                    },
                ),
                Ok(()),
            )
        }
    }

    /// A signed result is handed in. As `submit`, but for the signed phase and
    /// its slot.
    pub open spec fn submit_signed(self, supports: Seq<Support>, score: ElectionScore) -> (
        ControllerView,
        Result<(), ElectionError>,
    ) {
        if !(self.phase is Signed) {
            (self, Err(ElectionError::PhaseClosed))
        } else if !self.clears_floor(score) || !beats(self.signed_best, score) {
            (self, Err(ElectionError::ScoreTooLow))
        } else if !consistent(supports, score) {
            (self, Err(ElectionError::Malformed))
        } else {
            (
                ControllerView {
                    signed_best: Some(
                        SolutionView { supports, score, compute: ElectionCompute::Signed },
                    ),
                    accepted: self.counted(),
                    ..self
                }.noting(
                    ElectionEvent::SolutionStored {
                        compute: ElectionCompute::Signed,
                        score,
                        replaced: self.signed_best is Some,
                    },
                ),
                Ok(()),
            )
        }
    }

    /// The controller as the unsigned phase opens: what the signed phase
    /// accepted is queued.
    pub open spec fn unsigned_opened(self) -> ControllerView {
        ControllerView {
            phase: Phase::Unsigned {
                window_remaining: self.config.unsigned_window,
                submissions_open: self.config.unsigned_window > 0,
            },
            queued: self.signed_best,
            signed_best: None,
            ..self
        }
    }

    /// The best result that is held, from whichever phase.
    pub open spec fn candidate(self) -> Option<SolutionView> {
        if self.queued is Some {
            self.queued
        } else {
            self.signed_best
        }
    }

    /// The controller after the era has ended.
    ///
    /// An emergency lasts. A result that waits to be taken while no election
    /// is under way stands. Otherwise the best result held is committed if
    /// there is one and its score is at least the minimum, and the cycle is
    /// over; if not, the emergency begins. Either way nothing stays queued.
    pub open spec fn elected(self) -> ControllerView {
        if self.phase is Emergency || (self.phase is Off && self.committed is Some) {
            self
        } else {
            match self.candidate() {
                Some(c) if self.clears_floor(c.score) => ControllerView {
                    phase: Phase::Off,
                    queued: None,
                    signed_best: None,
                    accepted: 0,
                    committed: Some(c),
                    ..self
                }.noting(ElectionEvent::ElectionFinalized { compute: c.compute, score: c.score }),
                _ => ControllerView {
                    phase: Phase::Emergency,
                    queued: None,
                    signed_best: None,
                    accepted: 0,
                    ..self
                }.noting(ElectionEvent::ElectionFailed),
            }
        }
    }

    /// The controller one block on, with the step to a phase of another kind
    /// reported.
    pub open spec fn advance(self, signal: ClockSignal) -> ControllerView {
        self.stepped(signal).noting_transition(self.phase)
    }

    /// The controller one block on.
    ///
    /// An emergency lasts. The end of the era settles the election. Otherwise
    /// the election opens from `Off` when the clock says so and no result
    /// waits to be taken, with the signed phase, or with the unsigned one if
    /// the signed window is empty; the signed phase counts down and gives way
    /// to the unsigned phase; the unsigned phase counts down and then stops
    /// taking results.
    pub open spec fn stepped(self, signal: ClockSignal) -> ControllerView {
        if self.phase is Emergency {
            self
        } else if signal.era_boundary {
            self.elected()
        } else {
            match self.phase {
                Phase::Off => if !signal.opens_election || self.committed is Some {
                    self
                } else if self.config.signed_window > 0 {
                    ControllerView { phase: Phase::Signed(self.config.signed_window), ..self }
                } else {
                    self.unsigned_opened()
                },
                Phase::Signed(remaining) => if remaining > 1 {
                    ControllerView { phase: Phase::Signed((remaining - 1) as u32), ..self }
                } else {
                    self.unsigned_opened()
                },
                Phase::Unsigned { window_remaining, submissions_open } => if window_remaining > 1 {
                    ControllerView {
                        phase: Phase::Unsigned {
                            window_remaining: (window_remaining - 1) as u32,
                            submissions_open,
                        },
                        ..self
                    }
                } else {
                    ControllerView {
                        phase: Phase::Unsigned { window_remaining: 0, submissions_open: false },
                        ..self
                    }
                },
                Phase::Emergency => self,
            }
        }
    }

    /// A result is provided from outside to end the emergency. It has to be
    /// sound in itself; the minimum score does not apply to it.
    pub open spec fn resolve_emergency(self, supports: Seq<Support>, score: ElectionScore) -> (
        ControllerView,
        Result<(), ElectionError>,
    ) {
        if !(self.phase is Emergency) {
            (self, Err(ElectionError::CallNotAllowed))
        } else if !consistent(supports, score) {
            (self, Err(ElectionError::Malformed))
        } else {
            (
                ControllerView {
                    phase: Phase::Off,
                    committed: Some(
                        SolutionView { supports, score, compute: ElectionCompute::Emergency },
                    ),
                    ..self
                }.noting(
                    ElectionEvent::ElectionFinalized { compute: ElectionCompute::Emergency, score },
                ).noting_transition(self.phase),
                Ok(()),
            )
        }
    }

    /// The emergency is called off without a result, so that the next cycle
    /// tries again. Allowed only where leaving an emergency is not throttled.
    pub open spec fn force_retry(self) -> (ControllerView, Result<(), ElectionError>) {
        if self.phase is Emergency && !self.config.emergency_throttling {
            (ControllerView { phase: Phase::Off, ..self }.noting_transition(self.phase), Ok(()))
        } else {
            (self, Err(ElectionError::CallNotAllowed))
        }
    }
}

/// In every state that the controller can reach, a result is queued if and
/// only if the phase is the unsigned one and at least one candidate has been
/// accepted in this cycle. Nothing is queued while the election is off, in
/// the signed phase, or in an emergency.
pub proof fn lemma_queued_iff_unsigned_with_candidate(c: ControllerView)
    requires
        c.wf(),
    ensures
        c.queued is Some <==> (c.phase is Unsigned && c.accepted > 0),
        c.phase is Off || c.phase is Signed || c.phase is Emergency ==> c.queued is None,
{
}

/// Every transition of the controller leads from a reachable state to a
/// reachable state, and the first state is one.
pub proof fn lemma_transitions_keep_wf(
    c: ControllerView,
    config: ElectionConfig,
    supports: Seq<Support>,
    score: ElectionScore,
    signal: ClockSignal,
)
    requires
        c.wf(),
    ensures
        ControllerView::initial(config).wf(),
        c.submit(supports, score).0.wf(),
        c.submit_signed(supports, score).0.wf(),
        c.advance(signal).wf(),
        c.resolve_emergency(supports, score).0.wf(),
        c.force_retry().0.wf(),
{
}

/// A call on the controller.
pub enum ElectionCall {
    Submit { supports: Seq<Support>, score: ElectionScore },
    SubmitSigned { supports: Seq<Support>, score: ElectionScore },
    Advance { signal: ClockSignal },
    TakeResult,
    ResolveEmergency { supports: Seq<Support>, score: ElectionScore },
    ForceRetry,
    SetMinimumScore { minimum: Option<ElectionScore> },
}

/// The controller after `call`. A call that is refused changes nothing.
pub open spec fn after_call(c: ControllerView, call: ElectionCall) -> ControllerView {
    match call {
        ElectionCall::Submit { supports, score } => c.submit(supports, score).0,
        ElectionCall::SubmitSigned { supports, score } => c.submit_signed(supports, score).0,
        ElectionCall::Advance { signal } => c.advance(signal),
        ElectionCall::TakeResult => ControllerView { committed: None, ..c },
        ElectionCall::ResolveEmergency { supports, score } => c.resolve_emergency(
            supports,
            score,
        ).0,
        ElectionCall::ForceRetry => c.force_retry().0,
        ElectionCall::SetMinimumScore { minimum } => ControllerView { minimum_score: minimum, ..c },
    }
}

/// The controller after all of `calls`, in order.
pub open spec fn after_calls(c: ControllerView, calls: Seq<ElectionCall>) -> ControllerView
    decreases calls.len(),
{
    if calls.len() == 0 {
        c
    } else {
        after_call(after_calls(c, calls.drop_last()), calls.last())
    }
}

/// Whatever is called on a controller from its first state on, block after
/// block and in whatever order, a result is queued if and only if the phase
/// is the unsigned one and at least one candidate has been accepted in this
/// cycle.
pub proof fn lemma_queued_only_in_unsigned_phase(config: ElectionConfig, calls: Seq<ElectionCall>)
    ensures
        after_calls(ControllerView::initial(config), calls).wf(),
        after_calls(ControllerView::initial(config), calls).queued is Some <==> (after_calls(
            ControllerView::initial(config),
            calls,
        ).phase is Unsigned && after_calls(ControllerView::initial(config), calls).accepted > 0),
    decreases calls.len(),
{
    if calls.len() > 0 {
        lemma_queued_only_in_unsigned_phase(config, calls.drop_last());
    }
}

/// The end of the era never leaves a result queued, and it ends in an
/// emergency exactly when no election was already settled and nothing that is
/// held has a score of at least the minimum.
pub proof fn lemma_era_end_commits_or_fails(c: ControllerView)
    requires
        c.wf(),
        !(c.phase is Emergency),
    ensures
        c.elected().queued is None,
        c.elected().phase is Off || c.elected().phase is Emergency,
        c.elected().phase is Off ==> c.elected().committed is Some,
        c.elected().phase is Emergency <==> !(c.phase is Off && c.committed is Some) && !(
        c.candidate() matches Some(best) && c.clears_floor(best.score)),
{
}

/// Within a cycle the phases follow one another in one direction only: from
/// `Off` through the signed to the unsigned phase. The way back to `Off`, and
/// the way into an emergency, lead through the end of the era alone; and no
/// block leads out of an emergency.
pub proof fn lemma_phases_only_advance(c: ControllerView, signal: ClockSignal)
    requires
        c.wf(),
    ensures
        c.phase is Emergency ==> c.advance(signal) == c,
        !signal.era_boundary ==> match c.phase {
            Phase::Off => !(c.advance(signal).phase is Emergency),
            Phase::Signed(_) => c.advance(signal).phase is Signed || c.advance(signal).phase
                is Unsigned,
            Phase::Unsigned { .. } => c.advance(signal).phase is Unsigned && c.advance(
                signal,
            ).queued == c.queued,
            Phase::Emergency => c.advance(signal).phase is Emergency,
        },
        signal.era_boundary && !(c.phase is Emergency) ==> c.advance(signal).phase is Off
            || c.advance(signal).phase is Emergency,
        c.phase is Signed && c.advance(signal).phase is Unsigned ==> c.advance(signal).queued
            == c.signed_best,
{
}

/// A result that is accepted in the unsigned phase is the queued result from
/// then on, whatever was queued before, and it ranks strictly above what it
/// replaces and no lower than the minimum score. One that is refused leaves
/// the queued result in place.
pub proof fn lemma_best_result_is_kept(
    c: ControllerView,
    supports: Seq<Support>,
    score: ElectionScore,
)
    requires
        c.wf(),
    ensures
        c.submit(supports, score).1 is Ok ==> {
            &&& c.submit(supports, score).0.queued matches Some(q)
            &&& q.supports == supports
            &&& q.score == score
            &&& c.clears_floor(score)
            &&& c.queued matches Some(old_q) ==> score.better(old_q.score)
        },
        c.submit(supports, score).1 is Err ==> c.submit(supports, score).0 == c,
{
}

/// The controller of one chain.
pub struct ElectionController {
    config: ElectionConfig,
    phase: Phase,
    queued: Option<ReadySolution>,
    signed_best: Option<ReadySolution>,
    minimum_score: Option<ElectionScore>,
    accepted: u64,
    committed: Option<ReadySolution>,
    events: Vec<ElectionEvent>,
}

impl View for ElectionController {
    type V = ControllerView;

    closed spec fn view(&self) -> ControllerView {
        ControllerView {
            config: self.config,
            phase: self.phase,
            queued: view_of(self.queued),
            signed_best: view_of(self.signed_best),
            minimum_score: self.minimum_score,
            accepted: self.accepted,
            committed: view_of(self.committed),
            events: self.events@,
        }
    }
}

/// A copy of `supports`.
fn copy_supports(supports: &Vec<Support>) -> (copy: Vec<Support>)
    ensures
        copy@ == supports@,
{
    let mut copy: Vec<Support> = Vec::new();
    let mut i: usize = 0;
    while i < supports.len()
        invariant
            i <= supports.len(),
            copy@ == supports@.take(i as int),
        decreases supports.len() - i,
    {
        copy.push(supports[i]);
        i = i + 1;
    }
    copy
}

/// A copy of an optional result.
fn copy_solution(solution: &Option<ReadySolution>) -> (copy: Option<ReadySolution>)
    ensures
        view_of(copy) == view_of(*solution),
{
    match solution {
        Some(s) => Some(
            ReadySolution {
                supports: copy_supports(&s.supports),
                score: s.score,
                compute: s.compute,
            },
        ),
        None => None,
    }
}

impl Solution {
    /// The result `supports` with the score that it has.
    pub fn from_supports(supports: Vec<Support>) -> (solution: Solution)
        ensures
            solution.supports@ == supports@,
            solution.score == score_of(supports@),
    {
        let score = ElectionScore::of(&supports);
        Solution { supports, score }
    }

    /// Whether the result elects somebody and claims the score that its
    /// supports have.
    pub fn is_consistent(&self) -> (b: bool)
        ensures
            b == consistent(self.supports@, self.score),
    {
        self.supports.len() > 0 && ElectionScore::of(&self.supports) == self.score
    }
}

impl ElectionController {
    /// A controller before its first election, with no minimum score.
    pub fn new(config: ElectionConfig) -> (controller: Self)
        ensures
            controller@ == ControllerView::initial(config),
            controller@.wf(),
    {
        ElectionController {
            config,
            phase: Phase::Off,
            queued: None,
            signed_best: None,
            minimum_score: None,
            accepted: 0,
            committed: None,
            events: Vec::new(),
        }
    }

    /// What the controller reported since the log was last reset, oldest
    /// first.
    pub fn events(&self) -> (events: Vec<ElectionEvent>)
        ensures
            events@ == self@.events,
    {
        let mut events: Vec<ElectionEvent> = Vec::new();
        let mut i: usize = 0;
        while i < self.events.len()
            invariant
                i <= self.events.len(),
                events@ == self.events@.take(i as int),
            decreases self.events.len() - i,
        {
            events.push(self.events[i]);
            i = i + 1;
        }
        events
    }

    /// Empties the event log.
    pub fn reset_events(&mut self)
        ensures
            final(self)@ == (ControllerView { events: Seq::empty(), ..old(self)@ }),
            old(self)@.wf() ==> final(self)@.wf(),
    {
        self.events = Vec::new();
    }

    /// Reports the step from the phase `from`, if it led to a phase of
    /// another kind.
    fn note_transition(&mut self, from: Phase)
        ensures
            final(self)@ == old(self)@.noting_transition(from),
    {
        let same = match (from, self.phase) {
            (Phase::Off, Phase::Off) => true,
            (Phase::Signed(_), Phase::Signed(_)) => true,
            (Phase::Unsigned { .. }, Phase::Unsigned { .. }) => true,
            (Phase::Emergency, Phase::Emergency) => true,
            _ => false,
        };
        if !same {
            self.events.push(ElectionEvent::PhaseTransitioned { from, to: self.phase });
        }
    }

    /// The current phase.
    pub fn phase(&self) -> (phase: Phase)
        ensures
            phase == self@.phase,
    {
        self.phase
    }

    /// A copy of the queued result, if there is one.
    pub fn queued_solution(&self) -> (queued: Option<ReadySolution>)
        ensures
            view_of(queued) == self@.queued,
    {
        copy_solution(&self.queued)
    }

    /// How many results were accepted in this cycle.
    pub fn accepted(&self) -> (accepted: u64)
        ensures
            accepted == self@.accepted,
    {
        self.accepted
    }

    /// The score below which no result is accepted or committed.
    pub fn minimum_untrusted_score(&self) -> (minimum: Option<ElectionScore>)
        ensures
            minimum == self@.minimum_score,
    {
        self.minimum_score
    }

    /// Sets or lifts the minimum score, as governance may. What is already
    /// held is judged against it when the era ends.
    pub fn set_minimum_untrusted_score(&mut self, minimum: Option<ElectionScore>)
        ensures
            final(self)@ == (ControllerView { minimum_score: minimum, ..old(self)@ }),
            old(self)@.wf() ==> final(self)@.wf(),
    {
        self.minimum_score = minimum;
    }

    /// Whether `score` is at least the minimum, if one is set.
    fn clears_floor(&self, score: &ElectionScore) -> (b: bool)
        ensures
            b == self@.clears_floor(*score),
    {
        match &self.minimum_score {
            Some(floor) => score.is_at_least(floor),
            None => true,
        }
    }

    /// Hands in an unsigned result.
    ///
    /// Refused with `PhaseClosed` unless the unsigned phase takes results;
    /// otherwise with `ScoreTooLow` if the score is below the minimum or does
    /// not rank above the queued result; otherwise with `Malformed` if the
    /// result is empty or claims a score that its supports do not have. An
    /// accepted result replaces the queued one at once.
    pub fn submit(&mut self, solution: Solution) -> (result: Result<(), ElectionError>)
        requires
            old(self)@.wf(),
        ensures
            (final(self)@, result) == old(self)@.submit(solution.supports@, solution.score),
            final(self)@.wf(),
    {
        if !self.phase.is_unsigned_open() {
            return Err(ElectionError::PhaseClosed);
        }
        let beats_queued = match &self.queued {
            Some(q) => solution.score.is_better(&q.score),
            None => true,
        };
        if !self.clears_floor(&solution.score) || !beats_queued {
            return Err(ElectionError::ScoreTooLow);
        }
        if !solution.is_consistent() {
            return Err(ElectionError::Malformed);
        }
        self.events.push(
            ElectionEvent::SolutionStored {
                compute: ElectionCompute::Unsigned,
                score: solution.score,
                replaced: self.queued.is_some(),
            },
        );
        self.queued = Some(
            ReadySolution {
                supports: solution.supports,
                score: solution.score,
                compute: ElectionCompute::Unsigned,
            },
        );
        if self.accepted < u64::MAX {
            self.accepted = self.accepted + 1;
        }
        Ok(())
    }

    /// Hands in a signed result.
    ///
    /// Refused with `PhaseClosed` outside the signed phase; otherwise with
    /// `ScoreTooLow` if the score is below the minimum or does not rank above
    /// the best signed result so far; otherwise with `Malformed` if the result
    /// is empty or claims a score that its supports do not have. An accepted
    /// result waits in the signed slot until the unsigned phase opens.
    pub fn submit_signed(&mut self, solution: Solution) -> (result: Result<(), ElectionError>)
        requires
            old(self)@.wf(),
        ensures
            (final(self)@, result) == old(self)@.submit_signed(
                solution.supports@,
                solution.score,
            ),
            final(self)@.wf(),
    {
        if !self.phase.is_signed() {
            return Err(ElectionError::PhaseClosed);
        }
        let beats_best = match &self.signed_best {
            Some(q) => solution.score.is_better(&q.score),
            None => true,
        };
        if !self.clears_floor(&solution.score) || !beats_best {
            return Err(ElectionError::ScoreTooLow);
        }
        if !solution.is_consistent() {
            return Err(ElectionError::Malformed);
        }
        self.events.push(
            ElectionEvent::SolutionStored {
                compute: ElectionCompute::Signed,
                score: solution.score,
                replaced: self.signed_best.is_some(),
            },
        );
        self.signed_best = Some(
            ReadySolution {
                supports: solution.supports,
                score: solution.score,
                compute: ElectionCompute::Signed,
            },
        );
        if self.accepted < u64::MAX {
            self.accepted = self.accepted + 1;
        }
        Ok(())
    }

    /// Opens the unsigned phase and queues what the signed phase accepted.
    fn open_unsigned(&mut self)
        ensures
            final(self)@ == old(self)@.unsigned_opened(),
    {
        self.phase = Phase::Unsigned {
            window_remaining: self.config.unsigned_window,
            submissions_open: self.config.unsigned_window > 0,
        };
        self.queued = self.signed_best.take();
    }

    /// Settles the election at the end of the era.
    fn elect(&mut self)
        ensures
            final(self)@ == old(self)@.elected(),
    {
        if self.phase.is_emergency() || (self.phase.is_off() && self.committed.is_some()) {
            return ;
        }
        let queued = self.queued.take();
        let signed_best = self.signed_best.take();
        let candidate = if queued.is_some() {
            queued
        } else {
            signed_best
        };
        self.accepted = 0;
        match candidate {
            Some(c) => {
                if self.clears_floor(&c.score) {
                    self.phase = Phase::Off;
                    self.events.push(
                        ElectionEvent::ElectionFinalized { compute: c.compute, score: c.score },
                    );
                    self.committed = Some(c);
                } else {
                    self.phase = Phase::Emergency;
                    self.events.push(ElectionEvent::ElectionFailed);
                }
            },
            None => {
                self.phase = Phase::Emergency;
                self.events.push(ElectionEvent::ElectionFailed);
            },
        }
    }

    /// Moves the controller one block on and returns the phase that it is in
    /// then. Called once for every block, with what the clock says of it.
    pub fn advance(&mut self, signal: ClockSignal) -> (phase: Phase)
        requires
            old(self)@.wf(),
        ensures
            final(self)@ == old(self)@.advance(signal),
            phase == final(self)@.phase,
            final(self)@.wf(),
    {
        let from = self.phase;
        match self.phase {
            Phase::Emergency => {},
            _ if signal.era_boundary => {
                self.elect();
            },
            Phase::Off => {
                if signal.opens_election && self.committed.is_none() {
                    if self.config.signed_window > 0 {
                        self.phase = Phase::Signed(self.config.signed_window);
                    } else {
                        self.open_unsigned();
                    }
                }
            },
            Phase::Signed(remaining) => {
                if remaining > 1 {
                    self.phase = Phase::Signed(remaining - 1);
                } else {
                    self.open_unsigned();
                }
            },
            Phase::Unsigned { window_remaining, submissions_open } => {
                if window_remaining > 1 {
                    self.phase = Phase::Unsigned {
                        window_remaining: window_remaining - 1,
                        submissions_open,
                    };
                } else {
                    self.phase = Phase::Unsigned { window_remaining: 0, submissions_open: false };
                }
            },
        }
        self.note_transition(from);
        self.phase
    }

    /// Hands the result of the last election to the session layer, once.
    pub fn take_result(&mut self) -> (result: Option<ReadySolution>)
        ensures
            view_of(result) == old(self)@.committed,
            final(self)@ == (ControllerView { committed: None, ..old(self)@ }),
            old(self)@.wf() ==> final(self)@.wf(),
    {
        self.committed.take()
    }

    /// Ends an emergency with a result provided from outside.
    ///
    /// Refused with `CallNotAllowed` outside an emergency, and otherwise with
    /// `Malformed` if the result is empty or claims a score that its supports
    /// do not have. The minimum score does not apply.
    pub fn resolve_emergency(&mut self, solution: Solution) -> (result: Result<(), ElectionError>)
        requires
            old(self)@.wf(),
        ensures
            (final(self)@, result) == old(self)@.resolve_emergency(
                solution.supports@,
                solution.score,
            ),
            final(self)@.wf(),
    {
        if !self.phase.is_emergency() {
            return Err(ElectionError::CallNotAllowed);
        }
        if !solution.is_consistent() {
            return Err(ElectionError::Malformed);
        }
        self.phase = Phase::Off;
        self.events.push(
            ElectionEvent::ElectionFinalized {
                compute: ElectionCompute::Emergency,
                score: solution.score,
            },
        );
        self.committed = Some(
            ReadySolution {
                supports: solution.supports,
                score: solution.score,
                compute: ElectionCompute::Emergency,
            },
        );
        self.note_transition(Phase::Emergency);
        Ok(())
    }

    /// Calls an emergency off without a result, so that the next cycle tries
    /// again.
    ///
    /// Refused with `CallNotAllowed` outside an emergency, and in one where
    /// leaving is throttled.
    pub fn force_retry(&mut self) -> (result: Result<(), ElectionError>)
        requires
            old(self)@.wf(),
        ensures
            (final(self)@, result) == old(self)@.force_retry(),
            final(self)@.wf(),
    {
        if self.phase.is_emergency() && !self.config.emergency_throttling {
            self.phase = Phase::Off;
            self.note_transition(Phase::Emergency);
            Ok(())
        } else {
            Err(ElectionError::CallNotAllowed)
        }
    }
}

} // verus!
