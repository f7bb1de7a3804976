//! The ledger store: one staking ledger per account, the role each account
//! plays, and the operations that accounts call on their bonded funds.
//!
//! Every operation is atomic. One that is refused leaves the store exactly as
//! it was; one that succeeds appends the events that describe it.

use crate::ledger::{
    lemma_sum_push, lemma_sweep_idempotent, lemma_sweep_keeps_wf, pending, unlock_era, LedgerView,
    StakingError, StakingLedger, UnbondRules, Unbonded, UnlockChunk,
};
use std::collections::HashMap;
use vstd::prelude::*;

verus! {

broadcast use vstd::std_specs::hash::group_hash_axioms;

/// The part an account plays in staking. An account that has chilled is
/// `Idle`: it is bonded but neither validates nor nominates.
#[derive(Clone, Copy, Debug, PartialEq, Eq, Structural)]
pub enum Role {
    Idle,
    Validator,
    Nominator,
}

/// The limits that the store enforces.
#[derive(Clone, Copy, Debug, PartialEq, Eq, Structural)]
pub struct StakingConfig {
    /// Balance at or below which an account may be purged.
    pub existential_deposit: u128,
    /// Least active bond of a validator.
    pub min_validator_bond: u128,
    /// Least active bond of a nominator.
    pub min_nominator_bond: u128,
    /// Number of eras an unbonded chunk waits before it can be withdrawn.
    pub bonding_duration: u32,
    /// Largest number of unlocking chunks a ledger may hold.
    pub max_unlocking_chunks: u32,
}

/// What the store reports of a successful operation.
#[derive(Clone, Copy, Debug, PartialEq, Eq, Structural)]
pub enum StakingEvent {
    Bonded { stash: u64, amount: u128 },
    Unbonded { stash: u64, amount: u128 },
    Withdrawn { stash: u64, amount: u128 },
    Slashed { stash: u64, amount: u128 },
    Validating { stash: u64 },
    Nominating { stash: u64 },
    Chilled { stash: u64 },
    Reaped { stash: u64 },
}

/// The mathematical content of one entry of the store.
pub struct StakerView {
    pub ledger: LedgerView,
    pub role: Role,
}

/// The mathematical content of the store.
pub struct StakingView {
    pub config: StakingConfig,
    pub era: u32,
    pub stakers: Map<u64, StakerView>,
    pub events: Seq<StakingEvent>,
}

/// The events of an operation that withdrew `withdrawn` on the way and then
/// did what `then` reports, in that order. Nothing is reported of a sweep that
/// found nothing.
pub open spec fn with_withdrawal(stash: u64, withdrawn: nat, then: Seq<StakingEvent>) -> Seq<
    StakingEvent,
> {
    if withdrawn > 0 {
        seq![StakingEvent::Withdrawn { stash, amount: withdrawn as u128 }] + then
    } else {
        then
    }
}

impl StakingView {
    /// Every ledger of the store is consistent.
    pub open spec fn wf(self) -> bool {
        forall|k: u64| #[trigger] self.stakers.contains_key(k) ==> self.stakers[k].ledger.wf()
    }

    /// The least active bond that `stash` must keep while it holds its role.
    pub open spec fn min_active(self, stash: u64) -> nat {
        match self.stakers[stash].role {
            Role::Idle => 0,
            Role::Validator => self.config.min_validator_bond as nat,
            Role::Nominator => self.config.min_nominator_bond as nat,
        }
    }

    /// The rules under which `stash` unbonds.
    pub open spec fn rules(self, stash: u64) -> UnbondRules {
        UnbondRules {
            min_active: self.min_active(stash) as u128,
            max_chunks: self.config.max_unlocking_chunks,
            bonding_duration: self.config.bonding_duration,
        }
    }

    /// The store with the entry of `stash` replaced and `events` appended.
    pub open spec fn with_staker(
        self,
        stash: u64,
        staker: StakerView,
        events: Seq<StakingEvent>,
    ) -> StakingView {
        StakingView {
            stakers: self.stakers.insert(stash, staker),
            events: self.events + events,
            ..self
        }
    }

    /// The store without the entry of `stash` and with `events` appended.
    pub open spec fn without_staker(self, stash: u64, events: Seq<StakingEvent>) -> StakingView {
        StakingView { stakers: self.stakers.remove(stash), events: self.events + events, ..self }
    }

    /// `stash` bonds `value` and gets a ledger of its own, with no role yet.
    pub open spec fn bond(self, stash: u64, value: u128) -> (
        StakingView,
        Result<(), StakingError>,
    ) {
        if self.stakers.contains_key(stash) {
            (self, Err(StakingError::AlreadyBonded))
        } else if value < self.config.existential_deposit {
            (self, Err(StakingError::InsufficientBond))
        } else {
            (
                self.with_staker(
                    stash,
                    StakerView { ledger: LedgerView::bonded(value as nat), role: Role::Idle },
                    seq![StakingEvent::Bonded { stash, amount: value }],
                ),
                Ok(()),
            )
        }
    }

    /// `stash` adds `extra` to its active bond, after a maturity sweep.
    pub open spec fn bond_extra(self, stash: u64, extra: u128) -> (
        StakingView,
        Result<u128, StakingError>,
    ) {
        if !self.stakers.contains_key(stash) {
            (self, Err(StakingError::NotBonded))
        } else {
            let staker = self.stakers[stash];
            let withdrawn = staker.ledger.withdrawable(self.era);
            if staker.ledger.swept(self.era).total + extra > u128::MAX {
                (self, Err(StakingError::Overflow))
            } else {
                (
                    self.with_staker(
                        stash,
                        StakerView {
                            ledger: staker.ledger.bonded_extra(extra as nat, self.era),
                            role: staker.role,
                        },
                        with_withdrawal(
                            stash,
                            withdrawn,
                            seq![StakingEvent::Bonded { stash, amount: extra }],
                        ),
                    ),
                    Ok(withdrawn as u128),
                )
            }
        }
    }

    /// `stash` takes up `role`, which its active bond must cover.
    pub open spec fn take_role(self, stash: u64, role: Role) -> (
        StakingView,
        Result<(), StakingError>,
    ) {
        if !self.stakers.contains_key(stash) {
            (self, Err(StakingError::NotBonded))
        } else {
            let staker = self.stakers[stash];
            let floor = match role {
                Role::Idle => 0,
                Role::Validator => self.config.min_validator_bond as nat,
                Role::Nominator => self.config.min_nominator_bond as nat,
            };
            if staker.ledger.active < floor {
                (self, Err(StakingError::InsufficientBond))
            } else {
                (
                    self.with_staker(
                        stash,
                        StakerView { ledger: staker.ledger, role },
                        match role {
                            Role::Idle => seq![StakingEvent::Chilled { stash }],
                            Role::Validator => seq![StakingEvent::Validating { stash }],
                            Role::Nominator => seq![StakingEvent::Nominating { stash }],
                        },
                    ),
                    Ok(()),
                )
            }
        }
    }

    /// `stash` gives up its role. Returns whether it had one.
    pub open spec fn chill(self, stash: u64) -> (StakingView, bool) {
        if self.stakers.contains_key(stash) && self.stakers[stash].role != Role::Idle {
            (
                self.with_staker(
                    stash,
                    StakerView { ledger: self.stakers[stash].ledger, role: Role::Idle },
                    seq![StakingEvent::Chilled { stash }],
                ),
                true,
            )
        } else {
            (self, false)
        }
    }

    /// `stash` unbonds `value`.
    pub open spec fn unbond(self, stash: u64, value: u128) -> (
        StakingView,
        Result<Unbonded, StakingError>,
    ) {
        if !self.stakers.contains_key(stash) {
            (self, Err(StakingError::NotBonded))
        } else {
            let staker = self.stakers[stash];
            match staker.ledger.unbond(value as nat, self.era, self.rules(stash)) {
                Err(e) => (self, Err(e)),
                Ok(ledger) => {
                    let withdrawn = staker.ledger.withdrawable(self.era);
                    let unbonded = staker.ledger.unbondable(value as nat);
                    (
                        self.with_staker(
                            stash,
                            StakerView { ledger, role: staker.role },
                            with_withdrawal(
                                stash,
                                withdrawn,
                                if unbonded > 0 {
                                    seq![StakingEvent::Unbonded { stash, amount: unbonded as u128 }]
                                } else {
                                    Seq::empty()
                                },
                            ),
                        ),
                        Ok(Unbonded { withdrawn: withdrawn as u128, unbonded: unbonded as u128 }),
                    )
                },
            }
        }
    }

    /// `stash` withdraws what has matured. The entry is deleted when nothing
    /// is left in it and the account has no role. Returns the value withdrawn.
    pub open spec fn withdraw_unbonded(self, stash: u64) -> (StakingView, u128) {
        if !self.stakers.contains_key(stash) {
            (self, 0)
        } else {
            let staker = self.stakers[stash];
            let withdrawn = staker.ledger.withdrawable(self.era);
            let ledger = staker.ledger.swept(self.era);
            let events = with_withdrawal(stash, withdrawn, Seq::empty());
            if ledger.total == 0 && staker.role == Role::Idle {
                (self.without_staker(stash, events), withdrawn as u128)
            } else {
                (
                    self.with_staker(stash, StakerView { ledger, role: staker.role }, events),
                    withdrawn as u128,
                )
            }
        }
    }

    /// Anyone deletes the entry of `stash`, provided that it holds no more
    /// than the existential deposit.
    pub open spec fn reap_stash(self, stash: u64) -> (StakingView, Result<(), StakingError>) {
        if !self.stakers.contains_key(stash) {
            (self, Ok(()))
        } else if self.stakers[stash].ledger.total > self.config.existential_deposit {
            (self, Err(StakingError::FundedTarget))
        } else {
            (self.without_staker(stash, seq![StakingEvent::Reaped { stash }]), Ok(()))
        }
    }

    /// `value` is slashed from the active bond of `stash`. Returns the value
    /// taken.
    pub open spec fn slash(self, stash: u64, value: u128) -> (StakingView, u128) {
        if !self.stakers.contains_key(stash) {
            (self, 0)
        } else {
            let staker = self.stakers[stash];
            let taken = staker.ledger.slashable(value as nat);
            (
                self.with_staker(
                    stash,
                    StakerView { ledger: staker.ledger.slashed(value as nat), role: staker.role },
                    if taken > 0 {
                        seq![StakingEvent::Slashed { stash, amount: taken as u128 }]
                    } else {
                        Seq::empty()
                    },
                ),
                taken as u128,
            )
        }
    }

    /// The clock reports that era `era` has begun. Eras never run backwards.
    pub open spec fn start_era(self, era: u32) -> StakingView {
        StakingView { era: if era > self.era { era } else { self.era }, ..self }
    }
}

/// A copy of `events`.
pub fn copy_events(events: &Vec<StakingEvent>) -> (copy: Vec<StakingEvent>)
    ensures
        copy@ == events@,
{
    let mut copy: Vec<StakingEvent> = Vec::new();
    let mut i: usize = 0;
    while i < events.len()
        invariant
            i <= events.len(),
            copy@ == events@.take(i as int),
        decreases events.len() - i,
    {
        copy.push(events[i]);
        i = i + 1;
    }
    copy
}

/// One entry of the store.
#[derive(Debug)]
pub struct Staker {
    ledger: StakingLedger,
    role: Role,
}

impl View for Staker {
    type V = StakerView;

    closed spec fn view(&self) -> StakerView {
        StakerView { ledger: self.ledger@, role: self.role }
    }
}

/// The ledger store.
pub struct Staking {
    config: StakingConfig,
    era: u32,
    stakers: HashMap<u64, Staker>,
    events: Vec<StakingEvent>,
}

impl View for Staking {
    type V = StakingView;

    closed spec fn view(&self) -> StakingView {
        StakingView {
            config: self.config,
            era: self.era,
            stakers: Map::new(
                |k: u64| self.stakers@.contains_key(k),
                |k: u64| self.stakers@[k]@,
            ),
            events: self.events@,
        }
    }
}

impl Staking {
    /// An empty store in era 0.
    pub fn new(config: StakingConfig) -> (store: Self)
        ensures
            store@ == (StakingView {
                config,
                era: 0,
                stakers: Map::<u64, StakerView>::empty(),
                events: Seq::<StakingEvent>::empty(),
            }),
            store@.wf(),
    {
        let store = Staking { config, era: 0, stakers: HashMap::new(), events: Vec::new() };
        proof {
            assert(store@.stakers =~= Map::<u64, StakerView>::empty());
        }
        store
    }

    /// The limits that the store enforces.
    pub fn config(&self) -> (config: StakingConfig)
        ensures
            config == self@.config,
    {
        self.config
    }

    /// The current era.
    pub fn current_era(&self) -> (era: u32)
        ensures
            era == self@.era,
    {
        self.era
    }

    /// The clock reports that era `era` has begun.
    pub fn start_era(&mut self, era: u32)
        ensures
            final(self)@ == old(self)@.start_era(era),
    {
        if era > self.era {
            self.era = era;
        }
    }

    /// A snapshot of the ledger of `stash`, if it has one.
    pub fn ledger(&self, stash: u64) -> (ledger: Option<StakingLedger>)
        ensures
            match ledger {
                Some(l) => self@.stakers.contains_key(stash) && l@ == self@.stakers[stash].ledger,
                None => !self@.stakers.contains_key(stash),
            },
    {
        match self.stakers.get(&stash) {
            Some(staker) => Some(staker.ledger.copy()),
            None => None,
        }
    }

    /// The role of `stash`, if it is bonded.
    pub fn role(&self, stash: u64) -> (role: Option<Role>)
        ensures
            match role {
                Some(r) => self@.stakers.contains_key(stash) && r == self@.stakers[stash].role,
                None => !self@.stakers.contains_key(stash),
            },
    {
        match self.stakers.get(&stash) {
            Some(staker) => Some(staker.role),
            None => None,
        }
    }

    /// The events since the log was last reset, oldest first.
    pub fn events(&self) -> (events: Vec<StakingEvent>)
        ensures
            events@ == self@.events,
    {
        copy_events(&self.events)
    }

    /// Empties the event log.
    pub fn reset_events(&mut self)
        ensures
            final(self)@ == (StakingView { events: Seq::empty(), ..old(self)@ }),
    {
        self.events = Vec::new();
    }

    /// Takes the entry of `stash` out of the store.
    fn take(&mut self, stash: u64) -> (staker: Option<Staker>)
        ensures
            match staker {
                Some(s) => {
                    &&& old(self)@.stakers.contains_key(stash)
                    &&& s@ == old(self)@.stakers[stash]
                    &&& final(self)@ == old(self)@.without_staker(stash, Seq::empty())
                },
                None => !old(self)@.stakers.contains_key(stash) && final(self)@ == old(self)@,
            },
    {
        let staker = self.stakers.remove(&stash);
        proof {
            assert(self@.stakers =~= old(self)@.stakers.remove(stash));
            if staker is None {
                assert(self@.stakers =~= old(self)@.stakers);
            }
        }
        staker
    }

    /// Puts `staker` into the store as the entry of `stash`.
    fn put(&mut self, stash: u64, staker: Staker)
        ensures
            final(self)@ == old(self)@.with_staker(stash, staker@, Seq::empty()),
    {
        self.stakers.insert(stash, staker);
        proof {
            assert(final(self)@.stakers =~= old(self)@.stakers.insert(stash, staker@));
        }
    }

    /// Appends the report of a withdrawal of `withdrawn`, if anything was
    /// withdrawn.
    fn note_withdrawal(&mut self, stash: u64, withdrawn: u128)
        ensures
            final(self)@ == (StakingView {
                events: old(self)@.events + with_withdrawal(stash, withdrawn as nat, Seq::empty()),
                ..old(self)@
            }),
    {
        if withdrawn > 0 {
            self.events.push(StakingEvent::Withdrawn { stash, amount: withdrawn });
            proof {
                assert(final(self)@.events =~= old(self)@.events + with_withdrawal(
                    stash,
                    withdrawn as nat,
                    Seq::empty(),
                ));
            }
        } else {
        }
    }

    /// Appends one event.
    fn note(&mut self, event: StakingEvent)
        ensures
            final(self)@ == (StakingView {
                events: old(self)@.events + seq![event],
                ..old(self)@
            }),
    {
        self.events.push(event);
        proof {
            assert(final(self)@.events =~= old(self)@.events + seq![event]);
        }
    }

    /// `stash` bonds `value` and gets a ledger of its own, with no role yet.
    ///
    /// Refused with `AlreadyBonded` if `stash` has a ledger, and otherwise
    /// with `InsufficientBond` if `value` is below the existential deposit.
    pub fn bond(&mut self, stash: u64, value: u128) -> (result: Result<(), StakingError>)
        requires
            old(self)@.wf(),
        ensures
            (final(self)@, result) == old(self)@.bond(stash, value),
            final(self)@.wf(),
    {
        if self.stakers.contains_key(&stash) {
            return Err(StakingError::AlreadyBonded);
        }
        if value < self.config.existential_deposit {
            return Err(StakingError::InsufficientBond);
        }
        self.put(stash, Staker { ledger: StakingLedger::new(value), role: Role::Idle });
        self.note(StakingEvent::Bonded { stash, amount: value });
        Ok(())
    }

    /// `stash` adds `extra` to its active bond, after a maturity sweep.
    /// Returns the value that the sweep withdrew.
    ///
    /// Refused with `NotBonded` if `stash` has no ledger, and otherwise with
    /// `Overflow` if the total would leave the range of the balance type.
    pub fn bond_extra(&mut self, stash: u64, extra: u128) -> (result: Result<u128, StakingError>)
        requires
            old(self)@.wf(),
        ensures
            (final(self)@, result) == old(self)@.bond_extra(stash, extra),
            final(self)@.wf(),
    {
        let era = self.era;
        match self.take(stash) {
            None => Err(StakingError::NotBonded),
            Some(mut staker) => {
                let outcome = staker.ledger.bond_extra(extra, era);
                self.put(stash, staker);
                proof {
                    let pre = old(self)@;
                    assert(pre.stakers.remove(stash).insert(stash, staker@) =~= pre.stakers.insert(
                        stash,
                        staker@,
                    ));
                }
                match outcome {
                    Err(e) => {
                        proof {
                            assert(final(self)@.stakers =~= old(self)@.stakers);
                        }
                        Err(e)
                    },
                    Ok(withdrawn) => {
                        self.note_withdrawal(stash, withdrawn);
                        self.note(StakingEvent::Bonded { stash, amount: extra });
                        proof {
                            let pre = old(self)@;
                            let bonded = seq![StakingEvent::Bonded { stash, amount: extra }];
                            assert(pre.events + with_withdrawal(
                                stash,
                                withdrawn as nat,
                                Seq::empty(),
                            ) + bonded =~= pre.events + with_withdrawal(
                                stash,
                                withdrawn as nat,
                                bonded,
                            ));
                        }
                        Ok(withdrawn)
                    },
                }
            },
        }
    }

    /// `stash` starts to validate.
    ///
    /// Refused with `NotBonded` if `stash` has no ledger, and otherwise with
    /// `InsufficientBond` if its active bond is below the validators' minimum.
    pub fn validate(&mut self, stash: u64) -> (result: Result<(), StakingError>)
        requires
            old(self)@.wf(),
        ensures
            (final(self)@, result) == old(self)@.take_role(stash, Role::Validator),
            final(self)@.wf(),
    {
        self.take_role(stash, Role::Validator)
    }

    /// `stash` starts to nominate.
    ///
    /// Refused with `NotBonded` if `stash` has no ledger, and otherwise with
    /// `InsufficientBond` if its active bond is below the nominators' minimum.
    pub fn nominate(&mut self, stash: u64) -> (result: Result<(), StakingError>)
        requires
            old(self)@.wf(),
        ensures
            (final(self)@, result) == old(self)@.take_role(stash, Role::Nominator),
            final(self)@.wf(),
    {
        self.take_role(stash, Role::Nominator)
    }

    fn take_role(&mut self, stash: u64, role: Role) -> (result: Result<(), StakingError>)
        requires
            old(self)@.wf(),
        ensures
            (final(self)@, result) == old(self)@.take_role(stash, role),
            final(self)@.wf(),
    {
        let floor = match role {
            Role::Idle => 0,
            Role::Validator => self.config.min_validator_bond,
            Role::Nominator => self.config.min_nominator_bond,
        };
        match self.take(stash) {
            None => Err(StakingError::NotBonded),
            Some(mut staker) => {
                let enough = staker.ledger.active() >= floor;
                if enough {
                    staker.role = role;
                }
                self.put(stash, staker);
                proof {
                    let pre = old(self)@;
                    assert(pre.stakers.remove(stash).insert(stash, staker@) =~= pre.stakers.insert(
                        stash,
                        staker@,
                    ));
                }
                if !enough {
                    proof {
                        assert(final(self)@.stakers =~= old(self)@.stakers);
                    }
                    return Err(StakingError::InsufficientBond);
                }
                self.note(
                    match role {
                        Role::Idle => StakingEvent::Chilled { stash },
                        Role::Validator => StakingEvent::Validating { stash },
                        Role::Nominator => StakingEvent::Nominating { stash },
                    },
                );
                Ok(())
            },
        }
    }

    /// `stash` gives up its role, which lifts the minimum on its active bond.
    /// Returns whether it had a role to give up; if not, nothing changes.
    pub fn chill(&mut self, stash: u64) -> (chilled: bool)
        requires
            old(self)@.wf(),
        ensures
            (final(self)@, chilled) == old(self)@.chill(stash),
            final(self)@.wf(),
    {
        match self.take(stash) {
            None => false,
            Some(mut staker) => {
                let chilled = match staker.role {
                    Role::Idle => false,
                    _ => true,
                };
                staker.role = Role::Idle;
                self.put(stash, staker);
                proof {
                    let pre = old(self)@;
                    assert(pre.stakers.remove(stash).insert(stash, staker@) =~= pre.stakers.insert(
                        stash,
                        staker@,
                    ));
                }
                if chilled {
                    self.note(StakingEvent::Chilled { stash });
                } else {
                    proof {
                        assert(final(self)@.stakers =~= old(self)@.stakers);
                    }
                }
                chilled
            },
        }
    }

    /// `stash` moves `value` from its active bond into a new unlocking chunk,
    /// after a maturity sweep. A request for more than is active unbonds what
    /// is active.
    ///
    /// Refused with `NotBonded` if `stash` has no ledger; otherwise with
    /// `InsufficientBond` if `stash` has a role and its active bond would fall
    /// below the minimum of that role; otherwise with `NoMoreChunks` if no
    /// slot is free after the sweep.
    pub fn unbond(&mut self, stash: u64, value: u128) -> (result: Result<Unbonded, StakingError>)
        requires
            old(self)@.wf(),
        ensures
            (final(self)@, result) == old(self)@.unbond(stash, value),
            final(self)@.wf(),
    {
        let era = self.era;
        let config = self.config;
        match self.take(stash) {
            None => Err(StakingError::NotBonded),
            Some(mut staker) => {
                let rules = UnbondRules {
                    min_active: match staker.role {
                        Role::Idle => 0,
                        Role::Validator => config.min_validator_bond,
                        Role::Nominator => config.min_nominator_bond,
                    },
                    max_chunks: config.max_unlocking_chunks,
                    bonding_duration: config.bonding_duration,
                };
                let outcome = staker.ledger.unbond(value, era, &rules);
                self.put(stash, staker);
                proof {
                    let pre = old(self)@;
                    assert(pre.stakers.remove(stash).insert(stash, staker@) =~= pre.stakers.insert(
                        stash,
                        staker@,
                    ));
                }
                match outcome {
                    Err(e) => {
                        proof {
                            assert(final(self)@.stakers =~= old(self)@.stakers);
                        }
                        Err(e)
                    },
                    Ok(done) => {
                        self.note_withdrawal(stash, done.withdrawn);
                        if done.unbonded > 0 {
                            self.note(StakingEvent::Unbonded { stash, amount: done.unbonded });
                        }
                        proof {
                            let pre = old(self)@;
                            let then = if done.unbonded > 0 {
                                seq![StakingEvent::Unbonded { stash, amount: done.unbonded }]
                            } else {
                                Seq::empty()
                            };
                            assert(pre.events + with_withdrawal(
                                stash,
                                done.withdrawn as nat,
                                Seq::empty(),
                            ) + then =~= pre.events + with_withdrawal(
                                stash,
                                done.withdrawn as nat,
                                then,
                            ));
                        }
                        Ok(done)
                    },
                }
            },
        }
    }

    /// `stash` withdraws the chunks that have matured. When nothing is left in
    /// the ledger and the account has no role, the entry is deleted. Returns
    /// the value withdrawn. Never refused: an account without a ledger
    /// withdraws nothing.
    pub fn withdraw_unbonded(&mut self, stash: u64) -> (withdrawn: u128)
        requires
            old(self)@.wf(),
        ensures
            (final(self)@, withdrawn) == old(self)@.withdraw_unbonded(stash),
            final(self)@.wf(),
    {
        let era = self.era;
        match self.take(stash) {
            None => 0,
            Some(mut staker) => {
                let withdrawn = staker.ledger.sweep(era);
                let inert = staker.ledger.total() == 0 && match staker.role {
                    Role::Idle => true,
                    _ => false,
                };
                if !inert {
                    self.put(stash, staker);
                    proof {
                        let pre = old(self)@;
                        assert(pre.stakers.remove(stash).insert(stash, staker@)
                            =~= pre.stakers.insert(stash, staker@));
                    }
                }
                self.note_withdrawal(stash, withdrawn);
                withdrawn
            },
        }
    }

    /// `caller` asks to delete the entry of `stash`. Anyone may ask; an
    /// account without an entry is already gone.
    ///
    /// Refused with `FundedTarget` if and only if the ledger of `stash` holds
    /// more than the existential deposit, whatever part of it is active.
    pub fn reap_stash(&mut self, caller: u64, stash: u64) -> (result: Result<(), StakingError>)
        requires
            old(self)@.wf(),
        ensures
            (final(self)@, result) == old(self)@.reap_stash(stash),
            final(self)@.wf(),
    {
        let _ = caller;
        let ed = self.config.existential_deposit;
        match self.take(stash) {
            None => Ok(()),
            Some(staker) => {
                if staker.ledger.total() > ed {
                    self.put(stash, staker);
                    proof {
                        let pre = old(self)@;
                        assert(pre.stakers.remove(stash).insert(stash, staker@) =~= pre.stakers);
                    }
                    Err(StakingError::FundedTarget)
                } else {
                    self.note(StakingEvent::Reaped { stash });
                    Ok(())
                }
            },
        }
    }

    /// Takes `value` out of the active bond of `stash`, or all of it if there
    /// is less. Returns the value taken; an account without a ledger loses
    /// nothing.
    pub fn slash(&mut self, stash: u64, value: u128) -> (taken: u128)
        requires
            old(self)@.wf(),
        ensures
            (final(self)@, taken) == old(self)@.slash(stash, value),
            final(self)@.wf(),
    {
        match self.take(stash) {
            None => 0,
            Some(mut staker) => {
                let taken = staker.ledger.slash(value);
                self.put(stash, staker);
                proof {
                    let pre = old(self)@;
                    assert(pre.stakers.remove(stash).insert(stash, staker@) =~= pre.stakers.insert(
                        stash,
                        staker@,
                    ));
                }
                if taken > 0 {
                    self.note(StakingEvent::Slashed { stash, amount: taken });
                }
                taken
            },
        }
    }
}

/// While an account holds a role with a positive minimum bond, a request to
/// unbond its whole active bond is refused with `InsufficientBond` and changes
/// nothing. Right after a chill the same request is granted, provided that a
/// slot is free once the matured chunks are swept: nothing stays active, and
/// the total falls by what the sweep withdrew, so it is unchanged where
/// nothing had matured.
pub proof fn lemma_full_unbond_needs_chill(store: StakingView, stash: u64)
    requires
        store.wf(),
        store.stakers.contains_key(stash),
        store.stakers[stash].role != Role::Idle,
        store.min_active(stash) > 0,
    ensures
        store.unbond(stash, store.stakers[stash].ledger.active as u128) == (
            store,
            Err::<Unbonded, StakingError>(StakingError::InsufficientBond),
        ),
        ({
            let ledger = store.stakers[stash].ledger;
            let chilled = store.chill(stash).0;
            let (after, result) = chilled.unbond(stash, ledger.active as u128);
            pending(ledger.unlocking, store.era as int).len() < store.config.max_unlocking_chunks
                ==> {
                &&& result is Ok
                &&& after.stakers[stash].ledger.active == 0
                &&& after.stakers[stash].ledger.total == ledger.total - ledger.withdrawable(
                    store.era,
                )
                &&& ledger.withdrawable(store.era) == 0 ==> after.stakers[stash].ledger.total
                    == ledger.total
            }
        }),
{
    let ledger = store.stakers[stash].ledger;
    lemma_sweep_keeps_wf(ledger, store.era);
}

/// An account whose ledger holds more than the existential deposit is never
/// reaped, whatever part of the ledger is active: the request is refused with
/// `FundedTarget` and changes nothing.
pub proof fn lemma_funded_stash_is_not_reaped(store: StakingView, stash: u64)
    requires
        store.stakers.contains_key(stash),
        store.stakers[stash].ledger.total > store.config.existential_deposit,
    ensures
        store.reap_stash(stash) == (store, Err::<(), StakingError>(StakingError::FundedTarget)),
{
}

/// The entry of an account that holds more than the existential deposit is
/// deleted by nothing but a withdrawal of that account itself: whatever any
/// other account calls, and whatever else the account calls, the entry stays.
pub proof fn lemma_only_the_owner_deletes_a_funded_entry(
    store: StakingView,
    stash: u64,
    other: u64,
    value: u128,
    role: Role,
)
    requires
        store.wf(),
        store.stakers.contains_key(stash),
        store.stakers[stash].ledger.total > store.config.existential_deposit,
    ensures
        store.reap_stash(stash).0.stakers.contains_key(stash),
        store.bond(stash, value).0.stakers.contains_key(stash),
        store.bond_extra(stash, value).0.stakers.contains_key(stash),
        store.take_role(stash, role).0.stakers.contains_key(stash),
        store.chill(stash).0.stakers.contains_key(stash),
        store.unbond(stash, value).0.stakers.contains_key(stash),
        store.slash(stash, value).0.stakers.contains_key(stash),
        other != stash ==> {
            &&& store.reap_stash(other).0.stakers.contains_key(stash)
            &&& store.withdraw_unbonded(other).0.stakers.contains_key(stash)
            &&& store.bond(other, value).0.stakers.contains_key(stash)
            &&& store.bond_extra(other, value).0.stakers.contains_key(stash)
            &&& store.take_role(other, role).0.stakers.contains_key(stash)
            &&& store.chill(other).0.stakers.contains_key(stash)
            &&& store.unbond(other, value).0.stakers.contains_key(stash)
            &&& store.slash(other, value).0.stakers.contains_key(stash)
        },
{
}

/// A second withdrawal in the same era, with nothing newly matured, withdraws
/// nothing and leaves the store as the first one left it: no ledger changes
/// and no event is added.
pub proof fn lemma_withdraw_unbonded_idempotent(store: StakingView, stash: u64)
    requires
        store.wf(),
    ensures
        ({
            let once = store.withdraw_unbonded(stash).0;
            once.withdraw_unbonded(stash) == (once, 0u128)
        }),
{
    let once = store.withdraw_unbonded(stash).0;
    if store.stakers.contains_key(stash) {
        let staker = store.stakers[stash];
        lemma_sweep_idempotent(staker.ledger, store.era);
        if once.stakers.contains_key(stash) {
            let again = once.withdraw_unbonded(stash).0;
            assert(again.stakers =~= once.stakers);
        }
    }
}

/// Every operation of the store keeps every ledger consistent.
pub proof fn lemma_operations_keep_wf(store: StakingView, stash: u64, value: u128, role: Role)
    requires
        store.wf(),
    ensures
        store.bond(stash, value).0.wf(),
        store.bond_extra(stash, value).0.wf(),
        store.take_role(stash, role).0.wf(),
        store.chill(stash).0.wf(),
        store.unbond(stash, value).0.wf(),
        store.withdraw_unbonded(stash).0.wf(),
        store.reap_stash(stash).0.wf(),
        store.slash(stash, value).0.wf(),
{
    if store.stakers.contains_key(stash) {
        let ledger = store.stakers[stash].ledger;
        lemma_sweep_keeps_wf(ledger, store.era);
        let swept = ledger.swept(store.era);
        let v = swept.unbondable(value as nat);
        lemma_sum_push(
            swept.unlocking,
            UnlockChunk {
                value: v as u128,
                era: unlock_era(store.era, store.config.bonding_duration),
            },
        );
    }
}

} // verus!
