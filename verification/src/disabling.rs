//! The disabling and forcing policy: which offenders of the current era are
//! disabled, and when their number calls for a new era.
//!
//! Offenders are disabled in the order in which evidence against them
//! arrives, until a third of the others in the active set are disabled. Who
//! comes after that is recorded as an offender and not disabled.

use crate::perbill::{Perbill, BILLION};
use vstd::prelude::*;

verus! {

/// Whether the clock is asked to depart from its schedule at the end of the
/// era.
#[derive(Clone, Copy, Debug, PartialEq, Eq, Structural)]
pub enum Forcing {
    /// Eras follow the schedule.
    NotForcing,
    /// A new era starts at the next session boundary.
    ForceNew,
    /// No new era starts.
    ForceNone,
}

/// A report that `offender` misbehaved in era `era`.
#[derive(Clone, Copy, Debug, PartialEq, Eq, Structural)]
pub struct SlashEvidence {
    pub offender: u64,
    pub era: u32,
}

/// The largest number of validators that may be disabled at once in an active
/// set of `validators_len` members: a third of the others, rounded down.
pub open spec fn spec_disable_limit(validators_len: nat) -> nat {
    if validators_len == 0 {
        0
    } else {
        ((validators_len - 1) / 3) as nat
    }
}

/// Calls `pallet_staking::UpToLimitDisablingStrategy::<3>::disable_limit`, which
/// subtracts one from the length without going below zero and divides by the
/// factor three, rounding down.
#[verifier::external_body]
fn staking_disable_limit(validators_len: usize) -> (limit: usize)
    ensures
        limit == spec_disable_limit(validators_len as nat),
{
    pallet_staking::UpToLimitDisablingStrategy::<3>::disable_limit(validators_len)
}

/// The disabling limit for an active set of `validators_len` members.
pub fn disable_limit(validators_len: usize) -> (limit: usize)
    ensures
        limit == spec_disable_limit(validators_len as nat),
{
    staking_disable_limit(validators_len)
}

/// The index of the first occurrence of `who` in `set`.
pub open spec fn position(set: Seq<u64>, who: u64) -> Option<nat>
    decreases set.len(),
{
    if set.len() == 0 {
        None
    } else {
        match position(set.drop_last(), who) {
            Some(i) => Some(i),
            None => if set.last() == who {
                Some((set.len() - 1) as nat)
            } else {
                None
            },
        }
    }
}

/// Whether `count` offenders out of `size` validators are more than the
/// fraction of `threshold` parts per billion.
pub open spec fn crosses(count: nat, threshold: nat, size: nat) -> bool {
    count * BILLION > threshold * size
}

/// The mathematical content of the policy.
pub struct PolicyView {
    pub era: u32,
    /// The validators of the era. Fixed at its start, so its length is the
    /// size against which the offenders are counted.
    pub active_set: Seq<u64>,
    /// Indices of the disabled validators, in the order they were disabled.
    pub disabled: Seq<u32>,
    /// Indices of the validators with an offence in this era, in the order of
    /// their first offence.
    pub offenders: Seq<u32>,
    /// The fraction of the active set that must be exceeded to force an era.
    pub threshold: nat,
    pub force_era: Forcing,
}

impl PolicyView {
    /// The most validators that may be disabled in this era.
    pub open spec fn limit(self) -> nat {
        spec_disable_limit(self.active_set.len())
    }

    /// The disabled validators are within the limit, no index occurs twice,
    /// and every index points into the active set.
    pub open spec fn wf(self) -> bool {
        &&& self.active_set.len() <= u32::MAX
        &&& self.disabled.len() <= self.limit()
        &&& self.disabled.no_duplicates()
        &&& self.offenders.no_duplicates()
        &&& forall|i: int| 0 <= i < self.disabled.len() ==> self.disabled[i] < self.active_set.len()
        &&& forall|i: int|
            0 <= i < self.offenders.len() ==> self.offenders[i] < self.active_set.len()
    }

    /// The policy at the start of era `era` with the validators `active_set`:
    /// nobody is disabled, nobody has offended, and a forced era has been
    /// granted.
    pub open spec fn started(self, era: u32, active_set: Seq<u64>) -> PolicyView {
        PolicyView {
            era,
            active_set,
            disabled: Seq::empty(),
            offenders: Seq::empty(),
            threshold: self.threshold,
            force_era: if self.force_era == Forcing::ForceNew {
                Forcing::NotForcing
            } else {
                self.force_era
            },
        }
    }

    /// The policy after one piece of evidence, and the index of the validator
    /// that it disabled, if any.
    ///
    /// Evidence from an earlier era, or against an account outside the active
    /// set, changes nothing. Otherwise the offender is counted once per era,
    /// disabled unless it already is or the limit is reached, and a new era is
    /// forced once the offenders exceed the threshold.
    pub open spec fn report(self, evidence: SlashEvidence) -> (PolicyView, Option<u32>) {
        if evidence.era < self.era {
            (self, None)
        } else {
            match position(self.active_set, evidence.offender) {
                None => (self, None),
                Some(i) => {
                    let index = i as u32;
                    let offenders = if self.offenders.contains(index) {
                        self.offenders
                    } else {
                        self.offenders.push(index)
                    };
                    let disables = !self.disabled.contains(index) && self.disabled.len()
                        < self.limit();
                    (
                        PolicyView {
                            era: self.era,
                            active_set: self.active_set,
                            disabled: if disables {
                                self.disabled.push(index)
                            } else {
                                self.disabled
                            },
                            offenders,
                            threshold: self.threshold,
                            force_era: if crosses(
                                offenders.len(),
                                self.threshold,
                                self.active_set.len(),
                            ) {
                                Forcing::ForceNew
                            } else {
                                self.force_era
                            },
                        },
                        if disables {
                            Some(index)
                        } else {
                            None
                        },
                    )
                },
            }
        }
    }

    /// The policy after every piece of evidence of `batch`, taken in order.
    pub open spec fn report_all(self, batch: Seq<SlashEvidence>) -> PolicyView
        decreases batch.len(),
    {
        if batch.len() == 0 {
            self
        } else {
            self.report_all(batch.drop_last()).report(batch.last()).0
        }
    }
}

/// `position` finds the first occurrence: an index that holds `who` with no
/// earlier index that does; or nothing, if no index holds `who`.
pub proof fn lemma_position(set: Seq<u64>, who: u64)
    ensures
        match position(set, who) {
            Some(i) => i < set.len() && set[i as int] == who && forall|j: int|
                0 <= j < i ==> set[j] != who,
            None => forall|j: int| 0 <= j < set.len() ==> set[j] != who,
        },
    decreases set.len(),
{
    if set.len() > 0 {
        let init = set.drop_last();
        lemma_position(init, who);
        assert(forall|j: int| 0 <= j < init.len() ==> init[j] == set[j]);
        match position(init, who) {
            Some(i) => {
            },
            None => {
            },
        }
    }
}

/// One piece of evidence keeps the policy consistent: the disabled stay within
/// the limit. It never removes an offender, and it forces a new era only if
/// the offenders then exceed the threshold.
pub proof fn lemma_report_keeps_wf(policy: PolicyView, evidence: SlashEvidence)
    requires
        policy.wf(),
    ensures
        policy.report(evidence).0.wf(),
        policy.report(evidence).0.disabled.len() <= policy.limit(),
        policy.report(evidence).0.active_set == policy.active_set,
        policy.report(evidence).0.threshold == policy.threshold,
        policy.report(evidence).0.era == policy.era,
        policy.report(evidence).0.offenders.len() >= policy.offenders.len(),
        policy.report(evidence).0.force_era != policy.force_era ==> crosses(
            policy.report(evidence).0.offenders.len(),
            policy.threshold,
            policy.active_set.len(),
        ),
{
    lemma_position(policy.active_set, evidence.offender);
    let after = policy.report(evidence).0;
    if evidence.era >= policy.era {
        if let Some(i) = position(policy.active_set, evidence.offender) {
            let index = i as u32;
        }
    }
}

/// However much evidence arrives in one era, and in whatever order, the
/// number of disabled validators never exceeds a third of the others in the
/// active set.
pub proof fn lemma_batch_stays_within_limit(policy: PolicyView, batch: Seq<SlashEvidence>)
    requires
        policy.wf(),
    ensures
        policy.report_all(batch).wf(),
        policy.report_all(batch).disabled.len() <= spec_disable_limit(policy.active_set.len()),
        policy.report_all(batch).active_set == policy.active_set,
        policy.report_all(batch).threshold == policy.threshold,
        policy.report_all(batch).era == policy.era,
        policy.report_all(batch).offenders.len() >= policy.offenders.len(),
    decreases batch.len(),
{
    if batch.len() > 0 {
        lemma_batch_stays_within_limit(policy, batch.drop_last());
        lemma_report_keeps_wf(policy.report_all(batch.drop_last()), batch.last());
    }
}

/// A call on the policy.
pub enum PolicyCall {
    StartEra { era: u32, active_set: Seq<u64> },
    Report { evidence: SlashEvidence },
    SetForceEra { forcing: Forcing },
}

/// The policy after `call`. An active set that cannot be numbered is not
/// taken.
pub open spec fn after_call(policy: PolicyView, call: PolicyCall) -> PolicyView {
    match call {
        PolicyCall::StartEra { era, active_set } => if active_set.len() <= u32::MAX {
            policy.started(era, active_set)
        } else {
            policy
        },
        PolicyCall::Report { evidence } => policy.report(evidence).0,
        PolicyCall::SetForceEra { forcing } => PolicyView { force_era: forcing, ..policy },
    }
}

/// The policy after all of `calls`, in order.
pub open spec fn after_calls(policy: PolicyView, calls: Seq<PolicyCall>) -> PolicyView
    decreases calls.len(),
{
    if calls.len() == 0 {
        policy
    } else {
        after_call(after_calls(policy, calls.drop_last()), calls.last())
    }
}

/// Whatever eras begin and whatever evidence arrives, in whatever order and
/// number, the disabled validators never exceed a third of the others in the
/// active set of the era.
pub proof fn lemma_disabled_always_within_limit(policy: PolicyView, calls: Seq<PolicyCall>)
    requires
        policy.wf(),
    ensures
        after_calls(policy, calls).wf(),
        after_calls(policy, calls).disabled.len() <= spec_disable_limit(
            after_calls(policy, calls).active_set.len(),
        ),
    decreases calls.len(),
{
    if calls.len() > 0 {
        lemma_disabled_always_within_limit(policy, calls.drop_last());
        if let PolicyCall::Report { evidence } = calls.last() {
            lemma_report_keeps_wf(after_calls(policy, calls.drop_last()), evidence);
        }
    }
}

/// More offenders cross a threshold that fewer offenders cross.
pub proof fn lemma_crosses_monotone(fewer: nat, more: nat, threshold: nat, size: nat)
    requires
        fewer <= more,
        crosses(fewer, threshold, size),
    ensures
        crosses(more, threshold, size),
{
}

/// A batch of evidence after which the offenders of the era do not exceed the
/// threshold leaves the forcing flag as it was.
pub proof fn lemma_force_only_on_crossing(policy: PolicyView, batch: Seq<SlashEvidence>)
    requires
        policy.wf(),
        !crosses(
            policy.report_all(batch).offenders.len(),
            policy.threshold,
            policy.active_set.len(),
        ),
    ensures
        policy.report_all(batch).force_era == policy.force_era,
    decreases batch.len(),
{
    if batch.len() > 0 {
        let before = policy.report_all(batch.drop_last());
        lemma_batch_stays_within_limit(policy, batch.drop_last());
        lemma_report_keeps_wf(before, batch.last());
        if crosses(before.offenders.len(), policy.threshold, policy.active_set.len()) {
            lemma_crosses_monotone(
                before.offenders.len(),
                policy.report_all(batch).offenders.len(),
                policy.threshold,
                policy.active_set.len(),
            );
        }
        lemma_force_only_on_crossing(policy, batch.drop_last());
    }
}

/// Offenders that make up no more than a share of the active set do not exceed
/// a threshold that is at least that share.
pub proof fn lemma_share_below_threshold_never_crosses(
    count: nat,
    share: nat,
    threshold: nat,
    size: nat,
)
    requires
        count * BILLION <= share * size,
        share <= threshold,
    ensures
        !crosses(count, threshold, size),
{
    assert(share * size <= threshold * size) by (nonlinear_arith)
        requires
            share <= threshold,
    ;
}

/// An era in which the offenders make up no more than a share of the active
/// set with which it began forces no new era if the threshold is at least
/// that share: however the evidence arrives, the forcing flag ends the era as
/// it began it, and it did not begin it forcing.
pub proof fn lemma_small_share_never_forces(
    policy: PolicyView,
    era: u32,
    active_set: Seq<u64>,
    batch: Seq<SlashEvidence>,
    share: nat,
)
    requires
        policy.wf(),
        active_set.len() <= u32::MAX,
        share <= policy.threshold,
        policy.started(era, active_set).report_all(batch).offenders.len() * BILLION <= share
            * active_set.len(),
    ensures
        policy.started(era, active_set).force_era != Forcing::ForceNew,
        policy.started(era, active_set).report_all(batch).force_era == policy.started(
            era,
            active_set,
        ).force_era,
{
    let begun = policy.started(era, active_set);
    lemma_share_below_threshold_never_crosses(
        begun.report_all(batch).offenders.len(),
        share,
        policy.threshold,
        active_set.len(),
    );
    lemma_force_only_on_crossing(begun, batch);
}

/// The disabling and forcing policy of one chain.
pub struct DisablingPolicy {
    era: u32,
    active_set: Vec<u64>,
    disabled: Vec<u32>,
    offenders: Vec<u32>,
    threshold: Perbill,
    force_era: Forcing,
}

impl View for DisablingPolicy {
    type V = PolicyView;

    closed spec fn view(&self) -> PolicyView {
        PolicyView {
            era: self.era,
            active_set: self.active_set@,
            disabled: self.disabled@,
            offenders: self.offenders@,
            threshold: self.threshold@,
            force_era: self.force_era,
        }
    }
}

/// A copy of `items`.
fn copy_indices(items: &Vec<u32>) -> (copy: Vec<u32>)
    ensures
        copy@ == items@,
{
    let mut copy: Vec<u32> = Vec::new();
    let mut i: usize = 0;
    while i < items.len()
        invariant
            i <= items.len(),
            copy@ == items@.take(i as int),
        decreases items.len() - i,
    {
        copy.push(items[i]);
        i = i + 1;
    }
    copy
}

/// Whether `items` holds `x`.
fn holds(items: &Vec<u32>, x: u32) -> (found: bool)
    ensures
        found == items@.contains(x),
{
    let mut i: usize = 0;
    while i < items.len()
        invariant
            i <= items.len(),
            forall|j: int| 0 <= j < i ==> items@[j] != x,
        decreases items.len() - i,
    {
        if items[i] == x {
            return true;
        }
        i = i + 1;
    }
    false
}

/// The index of the first occurrence of `who` in `set`.
fn find(set: &Vec<u64>, who: u64) -> (index: Option<usize>)
    ensures
        match index {
            Some(i) => position(set@, who) == Some(i as nat),
            None => position(set@, who).is_none(),
        },
{
    let mut i: usize = 0;
    while i < set.len()
        invariant
            i <= set.len(),
            forall|j: int| 0 <= j < i ==> set@[j] != who,
        decreases set.len() - i,
    {
        if set[i] == who {
            proof {
                lemma_position(set@, who);
            }
            return Some(i);
        }
        i = i + 1;
    }
    proof {
        lemma_position(set@, who);
    }
    None
}

impl DisablingPolicy {
    /// The policy of era 0 with no validators yet, which forces an era once
    /// the offenders exceed `threshold` of the active set.
    pub fn new(threshold: Perbill) -> (policy: Self)
        ensures
            policy@ == (PolicyView {
                era: 0,
                active_set: Seq::empty(),
                disabled: Seq::empty(),
                offenders: Seq::empty(),
                threshold: threshold@,
                force_era: Forcing::NotForcing,
            }),
            policy@.wf(),
    {
        DisablingPolicy {
            era: 0,
            active_set: Vec::new(),
            disabled: Vec::new(),
            offenders: Vec::new(),
            threshold,
            force_era: Forcing::NotForcing,
        }
    }

    /// The era that the policy judges.
    pub fn era(&self) -> (era: u32)
        ensures
            era == self@.era,
    {
        self.era
    }

    /// The forcing flag.
    pub fn force_era(&self) -> (forcing: Forcing)
        ensures
            forcing == self@.force_era,
    {
        self.force_era
    }

    /// Sets the forcing flag, as governance may.
    pub fn set_force_era(&mut self, forcing: Forcing)
        ensures
            final(self)@ == (PolicyView { force_era: forcing, ..old(self)@ }),
            old(self)@.wf() ==> final(self)@.wf(),
    {
        self.force_era = forcing;
    }

    /// The number of validators in the active set.
    pub fn active_set_len(&self) -> (len: usize)
        ensures
            len == self@.active_set.len(),
    {
        self.active_set.len()
    }

    /// The validators of the era, in the order that numbers them.
    pub fn active_set(&self) -> (set: Vec<u64>)
        ensures
            set@ == self@.active_set,
    {
        let mut set: Vec<u64> = Vec::new();
        let mut i: usize = 0;
        while i < self.active_set.len()
            invariant
                i <= self.active_set.len(),
                set@ == self.active_set@.take(i as int),
            decreases self.active_set.len() - i,
        {
            set.push(self.active_set[i]);
            i = i + 1;
        }
        set
    }

    /// The indices of the disabled validators, in the order they were
    /// disabled.
    pub fn disabled_validators(&self) -> (disabled: Vec<u32>)
        ensures
            disabled@ == self@.disabled,
    {
        copy_indices(&self.disabled)
    }

    /// The indices of the validators with an offence in this era, in the order
    /// of their first offence.
    pub fn offenders(&self) -> (offenders: Vec<u32>)
        ensures
            offenders@ == self@.offenders,
    {
        copy_indices(&self.offenders)
    }

    /// The clock reports that era `era` has begun with the validators
    /// `active_set`. Returns whether the set was taken: one that has more
    /// members than an index can number is not, and then nothing changes.
    pub fn start_era(&mut self, era: u32, active_set: Vec<u64>) -> (taken: bool)
        requires
            old(self)@.wf(),
        ensures
            final(self)@.wf(),
            taken == (active_set@.len() <= u32::MAX),
            taken ==> final(self)@ == old(self)@.started(era, active_set@),
            !taken ==> final(self)@ == old(self)@,
    {
        if active_set.len() > u32::MAX as usize {
            return false;
        }
        self.era = era;
        self.active_set = active_set;
        self.disabled = Vec::new();
        self.offenders = Vec::new();
        self.force_era = match self.force_era {
            Forcing::ForceNew => Forcing::NotForcing,
            Forcing::NotForcing => Forcing::NotForcing,
            Forcing::ForceNone => Forcing::ForceNone,
        };
        true
    }

    /// Takes one piece of evidence. Returns the index of the validator that it
    /// disabled, if any.
    pub fn report_offence(&mut self, evidence: SlashEvidence) -> (disabled: Option<u32>)
        requires
            old(self)@.wf(),
        ensures
            (final(self)@, disabled) == old(self)@.report(evidence),
            final(self)@.wf(),
            final(self)@.disabled.len() <= spec_disable_limit(old(self)@.active_set.len()),
    {
        proof {
            lemma_report_keeps_wf(self@, evidence);
        }
        if evidence.era < self.era {
            return None;
        }
        let index = match find(&self.active_set, evidence.offender) {
            None => {
                return None;
            },
            Some(i) => i as u32,
        };
        if !holds(&self.offenders, index) {
            self.offenders.push(index);
        }
        let size = self.active_set.len();
        let count = self.offenders.len();
        let threshold = self.threshold.deconstruct();
        proof {
            assert(count <= size) by {
                lemma_distinct_indices_bounded(self.offenders@, size as nat);
            }
            assert(threshold * size <= BILLION * u32::MAX) by (nonlinear_arith)
                requires
                    threshold <= BILLION,
                    size <= u32::MAX,
            ;
        }
        if (count as u128) * (BILLION as u128) > (threshold as u128) * (size as u128) {
            self.force_era = Forcing::ForceNew;
        }
        let limit = disable_limit(size);
        if !holds(&self.disabled, index) && self.disabled.len() < limit {
            self.disabled.push(index);
            Some(index)
        } else {
            None
        }
    }

    /// Takes every piece of evidence of `batch`, in order. The limit is
    /// checked for each piece, so a batch of any size stays within it.
    pub fn report_batch(&mut self, batch: &Vec<SlashEvidence>)
        requires
            old(self)@.wf(),
        ensures
            final(self)@ == old(self)@.report_all(batch@),
            final(self)@.wf(),
            final(self)@.disabled.len() <= spec_disable_limit(old(self)@.active_set.len()),
    {
        let mut i: usize = 0;
        while i < batch.len()
            invariant
                i <= batch.len(),
                self@ == old(self)@.report_all(batch@.take(i as int)),
                self@.wf(),
                old(self)@.wf(),
            decreases batch.len() - i,
        {
            proof {
                assert(batch@.take(i + 1).drop_last() =~= batch@.take(i as int));
            }
            self.report_offence(batch[i]);
            i = i + 1;
        }
        proof {
            assert(batch@.take(i as int) =~= batch@);
            lemma_batch_stays_within_limit(old(self)@, batch@);
        }
    }
}

/// Distinct indices below `size` are at most `size` many.
pub proof fn lemma_distinct_indices_bounded(indices: Seq<u32>, size: nat)
    requires
        indices.no_duplicates(),
        forall|i: int| 0 <= i < indices.len() ==> indices[i] < size,
    ensures
        indices.len() <= size,
{
    let all = Set::new(|x: int| 0 <= x < size as int);
    vstd::set_lib::lemma_int_range(0, size as int);
    assert(all =~= vstd::set_lib::set_int_range(0, size as int));
    let image = indices.to_set().map(|x: u32| x as int);
    indices.unique_seq_to_set();
    vstd::set_lib::lemma_len_subset(image, all);
    vstd::set_lib::lemma_map_size(indices.to_set(), image, |x: u32| x as int);
}

} // verus!
