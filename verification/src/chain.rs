//! One chain: the clock, the election, the ledger store, the disabling policy
//! and the pools, moved on together block by block so that all of them count
//! the same era.

use crate::balances::Balances;
use crate::clock::{BlockSignal, ClockConfig, ClockView, EraClock};
use crate::disabling::{DisablingPolicy, Forcing, PolicyView};
use crate::election::{
    ClockSignal, ControllerView, ElectionConfig, ElectionController, Phase,
};
use crate::perbill::Perbill;
use crate::pools::{lemma_start_era_keeps_wf, PoolConfig, Pools, PoolsView};
use crate::score::Support;
use crate::staking::{Staking, StakingConfig, StakingView};
use vstd::prelude::*;

verus! {

/// The validators that `supports` elects, in their order.
pub open spec fn validators_of(supports: Seq<Support>) -> Seq<u64> {
    Seq::new(supports.len(), |i: int| supports[i].validator)
}

/// What the clock says of the next block: nothing, once the blocks cannot be
/// numbered any further.
pub open spec fn next_signal(clock: ClockView, policy: PolicyView) -> BlockSignal {
    if clock.block == u32::MAX {
        BlockSignal { session_end: false, era_boundary: false, opens_election: false }
    } else {
        clock.signal((clock.block + 1) as u32, policy.force_era)
    }
}

/// The mathematical content of a chain.
pub struct ChainView {
    pub clock: ClockView,
    pub election: ControllerView,
    pub staking: StakingView,
    pub policy: PolicyView,
    pub pools: PoolsView,
}

impl ChainView {
    /// The ledger store, the policy and the pools are in the era that the
    /// clock counts.
    pub open spec fn in_step(self) -> bool {
        &&& self.staking.era == self.clock.active_era
        &&& self.policy.era == self.clock.active_era
        &&& self.pools.era == self.clock.active_era
    }

    /// Every part is consistent in itself, and all are in step.
    pub open spec fn wf(self) -> bool {
        &&& self.election.wf()
        &&& self.staking.wf()
        &&& self.policy.wf()
        &&& self.pools.wf()
        &&& self.in_step()
    }

    /// The chain one block on.
    ///
    /// The clock moves; the election moves with what the clock says. If the
    /// block ends the era, the result of the election is taken: with a result
    /// whose validators can be numbered the next era begins, for the store,
    /// the pools and the policy alike, and its validators are those of the
    /// result; without one the era goes on. The session ends either way.
    pub open spec fn next_block(self) -> ChainView {
        let signal = next_signal(self.clock, self.policy);
        let clock = self.clock.ticked();
        let election = self.election.advance(
            ClockSignal {
                opens_election: signal.opens_election,
                era_boundary: signal.era_boundary,
            },
        );
        if !signal.session_end {
            ChainView { clock, election, ..self }
        } else if !signal.era_boundary {
            ChainView { clock: clock.session_ended(false), election, ..self }
        } else {
            let taken = ControllerView { committed: None, ..election };
            match election.committed {
                Some(result) if result.supports.len() <= u32::MAX => {
                    let era = clock.session_ended(true).active_era;
                    ChainView {
                        clock: clock.session_ended(true),
                        election: taken,
                        staking: self.staking.start_era(era),
                        policy: self.policy.started(era, validators_of(result.supports)),
                        pools: self.pools.start_era(era),
                    }
                },
                _ => ChainView { clock: clock.session_ended(false), election: taken, ..self },
            }
        }
    }
}

/// A block keeps every part of the chain consistent and all of them in step:
/// no block lets the store, the policy or the pools fall behind the clock or
/// run ahead of it. An era begins only with a result of the election. In an
/// emergency none begins, and however long it lasts, the blocks that pass
/// touch no ledger, no pool and no validator.
pub proof fn lemma_next_block_keeps_in_step(chain: ChainView)
    requires
        chain.wf(),
    ensures
        chain.next_block().wf(),
        chain.next_block().clock.active_era != chain.clock.active_era ==> {
            &&& next_signal(chain.clock, chain.policy).era_boundary
            &&& !(chain.next_block().election.phase is Emergency)
        },
        chain.election.phase is Emergency ==> {
            &&& chain.next_block().clock.active_era == chain.clock.active_era
            &&& chain.next_block().election.phase is Emergency
            &&& chain.next_block().staking == chain.staking
            &&& chain.next_block().pools == chain.pools
            &&& chain.next_block().policy == chain.policy
        },
{
    let signal = next_signal(chain.clock, chain.policy);
    let election = chain.election.advance(
        ClockSignal { opens_election: signal.opens_election, era_boundary: signal.era_boundary },
    );
    if signal.session_end && signal.era_boundary {
        if let Some(result) = election.committed {
            if result.supports.len() <= u32::MAX {
                let era = chain.clock.ticked().session_ended(true).active_era;
                lemma_start_era_keeps_wf(chain.pools, era);
            }
        }
    }
}

/// One chain.
pub struct Chain {
    pub clock: EraClock,
    pub election: ElectionController,
    pub staking: Staking,
    pub policy: DisablingPolicy,
    pub pools: Pools,
    pub balances: Balances,
}

impl View for Chain {
    type V = ChainView;

    open spec fn view(&self) -> ChainView {
        ChainView {
            clock: self.clock@,
            election: self.election@,
            staking: self.staking@,
            policy: self.policy@,
            pools: self.pools@,
        }
    }
}

/// The configuration of every part of a chain.
#[derive(Clone, Copy, Debug, PartialEq, Eq)]
pub struct ChainConfig {
    pub clock: ClockConfig,
    pub election: ElectionConfig,
    pub staking: StakingConfig,
    pub pools: PoolConfig,
    /// The fraction of the active set that offenders must exceed to force an
    /// era.
    pub offending_threshold: Perbill,
}

/// The validators that `supports` elects, in their order.
fn collect_validators(supports: &Vec<Support>) -> (validators: Vec<u64>)
    ensures
        validators@ == validators_of(supports@),
{
    let mut validators: Vec<u64> = Vec::new();
    let mut i: usize = 0;
    while i < supports.len()
        invariant
            i <= supports.len(),
            validators@ == validators_of(supports@.take(i as int)),
        decreases supports.len() - i,
    {
        validators.push(supports[i].validator);
        i = i + 1;
    }
    validators
}

impl Chain {
    /// A chain before its first block: era 0 with the validators
    /// `validators`, no election under way, nothing bonded, no pools, and no
    /// balances. A set of validators that cannot be numbered is not taken,
    /// and the chain begins without validators.
    pub fn new(config: ChainConfig, validators: Vec<u64>) -> (chain: Self)
        ensures
            chain@.wf(),
            chain@.clock == ClockView::initial(config.clock),
            chain@.election == ControllerView::initial(config.election),
            chain@.pools == PoolsView::initial(config.pools),
            chain@.staking == (StakingView {
                config: config.staking,
                era: 0,
                stakers: Map::empty(),
                events: Seq::empty(),
            }),
            chain@.policy == (PolicyView {
                era: 0,
                active_set: if validators@.len() <= u32::MAX {
                    validators@
                } else {
                    Seq::empty()
                },
                disabled: Seq::empty(),
                offenders: Seq::empty(),
                threshold: config.offending_threshold@,
                force_era: Forcing::NotForcing,
            }),
            chain.balances@ == Map::<u64, u128>::empty(),
    {
        let mut policy = DisablingPolicy::new(config.offending_threshold);
        policy.start_era(0, validators);
        Chain {
            clock: EraClock::new(config.clock),
            election: ElectionController::new(config.election),
            staking: Staking::new(config.staking),
            policy,
            pools: Pools::new(config.pools),
            balances: Balances::new(),
        }
    }

    /// Whether the ledger store, the policy and the pools are in the era that
    /// the clock counts.
    pub fn in_step(&self) -> (b: bool)
        ensures
            b == self@.in_step(),
    {
        let era = self.clock.active_era();
        self.staking.current_era() == era && self.policy.era() == era && self.pools.current_era()
            == era
    }

    /// Moves the chain one block on and returns the phase that the election
    /// is in then.
    pub fn next_block(&mut self) -> (phase: Phase)
        requires
            old(self)@.wf(),
        ensures
            final(self)@ == old(self)@.next_block(),
            final(self).balances@ == old(self).balances@,
            final(self)@.wf(),
            phase == final(self)@.election.phase,
    {
        proof {
            lemma_next_block_keeps_in_step(self@);
        }
        let signal = self.clock.tick(self.policy.force_era());
        let phase = self.election.advance(
            ClockSignal {
                opens_election: signal.opens_election,
                era_boundary: signal.era_boundary,
            },
        );
        if signal.session_end {
            let mut elected: Option<Vec<u64>> = None;
            if signal.era_boundary {
                match self.election.take_result() {
                    Some(result) => {
                        if result.supports.len() <= u32::MAX as usize {
                            elected = Some(collect_validators(&result.supports));
                        }
                    },
                    None => {},
                }
            }
            match elected {
                Some(validators) => {
                    self.clock.end_session(true);
                    let era = self.clock.active_era();
                    self.staking.start_era(era);
                    self.pools.start_era(era);
                    self.policy.start_era(era, validators);
                },
                None => {
                    self.clock.end_session(false);
                },
            }
        }
        phase
    }
}

} // verus!
