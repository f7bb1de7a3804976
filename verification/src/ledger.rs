//! The staking ledger of one account: what is bonded, what is on its way out,
//! and the rules by which value moves between the two.
//!
//! A ledger is pure data. It knows no clock and no roles: the era, the bonding
//! duration, the minimum bond and the chunk limit are handed to each
//! transition by whoever owns the ledger.

use vstd::prelude::*;

verus! {

/// Why a staking operation was refused. A refused operation changes nothing.
#[derive(Clone, Copy, Debug, PartialEq, Eq, Structural)]
pub enum StakingError {
    /// The account has no ledger entry.
    NotBonded,
    /// The account already has a ledger entry.
    AlreadyBonded,
    /// The bond that would remain active is below the minimum for the
    /// account's role.
    InsufficientBond,
    /// Every unlocking slot is taken and none of the chunks has matured.
    NoMoreChunks,
    /// The account still holds more than the existential deposit.
    FundedTarget,
    /// The bonded total would leave the range of the balance type.
    Overflow,
}

/// Value that has been unbonded and becomes withdrawable in era `era`.
#[derive(Clone, Copy, Debug, PartialEq, Eq, Structural)]
pub struct UnlockChunk {
    pub value: u128,
    pub era: u32,
}

/// The parameters that govern one unbond request.
#[derive(Clone, Copy, Debug, PartialEq, Eq, Structural)]
pub struct UnbondRules {
    /// Least active bond that the account must keep; zero once it is chilled.
    pub min_active: u128,
    /// Largest number of unlocking chunks a ledger may hold.
    pub max_chunks: u32,
    /// Number of eras an unbonded chunk waits before it can be withdrawn.
    pub bonding_duration: u32,
}

/// What a successful unbond did.
#[derive(Clone, Copy, Debug, PartialEq, Eq, Structural)]
pub struct Unbonded {
    /// Value of the matured chunks that were withdrawn on the way.
    pub withdrawn: u128,
    /// Value that moved from active to unlocking.
    pub unbonded: u128,
}

/// The sum of the values of all the chunks.
pub open spec fn sum_values(chunks: Seq<UnlockChunk>) -> nat
    decreases chunks.len(),
{
    if chunks.len() == 0 {
        0
    } else {
        sum_values(chunks.drop_last()) + chunks.last().value as nat
    }
}

/// The chunks that are not yet withdrawable in era `era`, in their order.
pub open spec fn pending(chunks: Seq<UnlockChunk>, era: int) -> Seq<UnlockChunk>
    decreases chunks.len(),
{
    if chunks.len() == 0 {
        Seq::empty()
    } else if chunks.last().era > era {
        pending(chunks.drop_last(), era).push(chunks.last())
    } else {
        pending(chunks.drop_last(), era)
    }
}

/// The value of the chunks that are withdrawable in era `era`.
pub open spec fn value_upto(chunks: Seq<UnlockChunk>, era: int) -> nat
    decreases chunks.len(),
{
    if chunks.len() == 0 {
        0
    } else if chunks.last().era <= era {
        value_upto(chunks.drop_last(), era) + chunks.last().value as nat
    } else {
        value_upto(chunks.drop_last(), era)
    }
}

/// The value of the chunks that are still locked in era `era`.
pub open spec fn value_after(chunks: Seq<UnlockChunk>, era: int) -> nat {
    sum_values(pending(chunks, era))
}

/// The era in which value unbonded in era `era` becomes withdrawable.
pub open spec fn unlock_era(era: u32, bonding_duration: u32) -> u32 {
    if era + bonding_duration > u32::MAX {
        u32::MAX
    } else {
        (era + bonding_duration) as u32
    }
}

/// The mathematical content of a ledger.
pub struct LedgerView {
    pub total: nat,
    pub active: nat,
    pub unlocking: Seq<UnlockChunk>,
}

impl LedgerView {
    /// The total is the active bond plus everything that is unlocking, and it
    /// fits the balance type.
    pub open spec fn wf(self) -> bool {
        &&& self.total == self.active + sum_values(self.unlocking)
        &&& self.total <= u128::MAX
    }

    /// A fresh ledger with `value` bonded and nothing unlocking.
    pub open spec fn bonded(value: nat) -> LedgerView {
        LedgerView { total: value, active: value, unlocking: Seq::empty() }
    }

    /// What a maturity sweep in era `era` would withdraw.
    pub open spec fn withdrawable(self, era: u32) -> nat {
        value_upto(self.unlocking, era as int)
    }

    /// The ledger after a maturity sweep in era `era`: the matured chunks are
    /// gone and their value has left the total.
    pub open spec fn swept(self, era: u32) -> LedgerView {
        LedgerView {
            total: (self.total - self.withdrawable(era)) as nat,
            active: self.active,
            unlocking: pending(self.unlocking, era as int),
        }
    }

    /// The ledger after a sweep in era `era` and a further bond of `extra`.
    pub open spec fn bonded_extra(self, extra: nat, era: u32) -> LedgerView {
        let s = self.swept(era);
        LedgerView { total: s.total + extra, active: s.active + extra, unlocking: s.unlocking }
    }

    /// The ledger after `value` was slashed from the active bond. No more than
    /// the active bond can be taken.
    pub open spec fn slashed(self, value: nat) -> LedgerView {
        let taken = self.slashable(value);
        LedgerView {
            total: (self.total - taken) as nat,
            active: (self.active - taken) as nat,
            unlocking: self.unlocking,
        }
    }

    /// How much of `value` a slash can take: the active bond at most.
    pub open spec fn slashable(self, value: nat) -> nat {
        if value <= self.active {
            value
        } else {
            self.active
        }
    }

    /// How much of a request for `value` is unbonded after a sweep: the whole
    /// active bond at most.
    pub open spec fn unbondable(self, value: nat) -> nat {
        if value <= self.active {
            value
        } else {
            self.active
        }
    }

    /// The outcome of a request to unbond `value` in era `era`.
    ///
    /// The matured chunks are swept first. The request is refused with
    /// `InsufficientBond` if the active bond would fall below the minimum, and
    /// otherwise with `NoMoreChunks` if every slot is still taken after the
    /// sweep. A request that unbonds nothing adds no chunk.
    pub open spec fn unbond(self, value: nat, era: u32, rules: UnbondRules) -> Result<
        LedgerView,
        StakingError,
    > {
        let s = self.swept(era);
        let v = s.unbondable(value);
        if s.active - v < rules.min_active {
            Err(StakingError::InsufficientBond)
        } else if s.unlocking.len() >= rules.max_chunks {
            Err(StakingError::NoMoreChunks)
        } else if v == 0 {
            Ok(s)
        } else {
            Ok(
                LedgerView {
                    total: s.total,
                    active: (s.active - v) as nat,
                    unlocking: s.unlocking.push(
                        UnlockChunk {
                            value: v as u128,
                            era: unlock_era(era, rules.bonding_duration),
                        },
                    ),
                },
            )
        }
    }
}

/// Appending a chunk adds its value to the sum.
pub proof fn lemma_sum_push(chunks: Seq<UnlockChunk>, c: UnlockChunk)
    ensures
        sum_values(chunks.push(c)) == sum_values(chunks) + c.value,
{
    assert(chunks.push(c).drop_last() =~= chunks);
}

/// Appending a chunk to the input appends it to the pending chunks if it is
/// still locked, and adds its value to the withdrawable value if it is not.
pub proof fn lemma_split_push(chunks: Seq<UnlockChunk>, c: UnlockChunk, era: int)
    ensures
        pending(chunks.push(c), era) == if c.era > era {
            pending(chunks, era).push(c)
        } else {
            pending(chunks, era)
        },
        value_upto(chunks.push(c), era) == value_upto(chunks, era) + if c.era <= era {
            c.value as nat
        } else {
            0nat
        },
{
    assert(chunks.push(c).drop_last() =~= chunks);
}

/// Every chunk is either withdrawable or still locked: the two values add up
/// to the sum of all.
pub proof fn lemma_value_split(chunks: Seq<UnlockChunk>, era: int)
    ensures
        value_upto(chunks, era) + value_after(chunks, era) == sum_values(chunks),
        pending(chunks, era).len() <= chunks.len(),
    decreases chunks.len(),
{
    if chunks.len() > 0 {
        lemma_value_split(chunks.drop_last(), era);
        if chunks.last().era > era {
            lemma_sum_push(pending(chunks.drop_last(), era), chunks.last());
        }
    }
}

/// The sum over a prefix is at most the sum over the whole.
pub proof fn lemma_sum_prefix(chunks: Seq<UnlockChunk>, n: int)
    requires
        0 <= n <= chunks.len(),
    ensures
        sum_values(chunks.take(n)) <= sum_values(chunks),
    decreases chunks.len(),
{
    if n < chunks.len() {
        lemma_sum_prefix(chunks.drop_last(), n);
        assert(chunks.drop_last().take(n) =~= chunks.take(n));
    } else {
        assert(chunks.take(n) =~= chunks);
    }
}

/// A later threshold leaves fewer chunks pending: sweeping at `a` and then at
/// `b` is sweeping at the later of the two.
pub proof fn lemma_pending_twice(chunks: Seq<UnlockChunk>, a: int, b: int)
    ensures
        pending(pending(chunks, a), b) == pending(chunks, if a >= b { a } else { b }),
    decreases chunks.len(),
{
    if chunks.len() > 0 {
        lemma_pending_twice(chunks.drop_last(), a, b);
        if chunks.last().era > a {
            lemma_split_push(pending(chunks.drop_last(), a), chunks.last(), b);
        }
    }
}

/// After a sweep at `a` nothing is withdrawable at any era up to `a`.
pub proof fn lemma_swept_has_nothing_matured(chunks: Seq<UnlockChunk>, a: int, b: int)
    requires
        b <= a,
    ensures
        value_upto(pending(chunks, a), b) == 0,
        pending(pending(chunks, a), b) == pending(chunks, a),
    decreases chunks.len(),
{
    if chunks.len() > 0 {
        lemma_swept_has_nothing_matured(chunks.drop_last(), a, b);
        if chunks.last().era > a {
            lemma_split_push(pending(chunks.drop_last(), a), chunks.last(), b);
        }
    }
}

/// The value of the chunks of `chunks` that are withdrawable in era `era`.
pub fn matured_value(chunks: &Vec<UnlockChunk>, era: u32) -> (value: u128)
    requires
        sum_values(chunks@) <= u128::MAX,
    ensures
        value == value_upto(chunks@, era as int),
{
    let mut value: u128 = 0;
    let mut i: usize = 0;
    while i < chunks.len()
        invariant
            i <= chunks.len(),
            value == value_upto(chunks@.take(i as int), era as int),
            sum_values(chunks@) <= u128::MAX,
        decreases chunks.len() - i,
    {
        let c = chunks[i];
        proof {
            let next = chunks@.take(i + 1);
            assert(next =~= chunks@.take(i as int).push(c));
            lemma_split_push(chunks@.take(i as int), c, era as int);
            lemma_value_split(next, era as int);
            lemma_sum_prefix(chunks@, i + 1);
        }
        if c.era <= era {
            value = value + c.value;
        }
        i = i + 1;
    }
    proof {
        assert(chunks@.take(i as int) =~= chunks@);
    }
    value
}

/// The chunks of `chunks` that are not yet withdrawable in era `era`, in
/// their order.
pub fn pending_chunks(chunks: &Vec<UnlockChunk>, era: u32) -> (kept: Vec<UnlockChunk>)
    ensures
        kept@ == pending(chunks@, era as int),
{
    let mut kept: Vec<UnlockChunk> = Vec::new();
    let mut i: usize = 0;
    while i < chunks.len()
        invariant
            i <= chunks.len(),
            kept@ == pending(chunks@.take(i as int), era as int),
        decreases chunks.len() - i,
    {
        let c = chunks[i];
        proof {
            assert(chunks@.take(i + 1) =~= chunks@.take(i as int).push(c));
            lemma_split_push(chunks@.take(i as int), c, era as int);
        }
        if c.era > era {
            kept.push(c);
        }
        i = i + 1;
    }
    proof {
        assert(chunks@.take(i as int) =~= chunks@);
    }
    kept
}

/// A copy of `chunks`.
pub fn copy_chunks(chunks: &Vec<UnlockChunk>) -> (copy: Vec<UnlockChunk>)
    ensures
        copy@ == chunks@,
{
    let mut copy: Vec<UnlockChunk> = Vec::new();
    let mut i: usize = 0;
    while i < chunks.len()
        invariant
            i <= chunks.len(),
            copy@ == chunks@.take(i as int),
        decreases chunks.len() - i,
    {
        copy.push(chunks[i]);
        i = i + 1;
    }
    copy
}

/// One account's bonded funds.
#[derive(Debug)]
pub struct StakingLedger {
    total: u128,
    active: u128,
    unlocking: Vec<UnlockChunk>,
}

impl View for StakingLedger {
    type V = LedgerView;

    closed spec fn view(&self) -> LedgerView {
        LedgerView {
            total: self.total as nat,
            active: self.active as nat,
            unlocking: self.unlocking@,
        }
    }
}

impl StakingLedger {
    /// A fresh ledger with `value` bonded and nothing unlocking.
    pub fn new(value: u128) -> (ledger: Self)
        ensures
            ledger@ == LedgerView::bonded(value as nat),
            ledger@.wf(),
    {
        StakingLedger { total: value, active: value, unlocking: Vec::new() }
    }

    /// Everything the ledger holds: the active bond and all that is unlocking.
    pub fn total(&self) -> (total: u128)
        ensures
            total == self@.total,
    {
        self.total
    }

    /// The bond that is at stake.
    pub fn active(&self) -> (active: u128)
        ensures
            active == self@.active,
    {
        self.active
    }

    /// The number of unlocking chunks.
    pub fn unlocking_len(&self) -> (len: usize)
        ensures
            len == self@.unlocking.len(),
    {
        self.unlocking.len()
    }

    /// The unlocking chunks, oldest first.
    pub fn unlocking(&self) -> (chunks: Vec<UnlockChunk>)
        ensures
            chunks@ == self@.unlocking,
    {
        copy_chunks(&self.unlocking)
    }

    /// A copy of the ledger.
    pub fn copy(&self) -> (ledger: Self)
        ensures
            ledger@ == self@,
    {
        StakingLedger { total: self.total, active: self.active, unlocking: self.unlocking() }
    }

    /// The value that a maturity sweep in era `era` would withdraw.
    pub fn withdrawable(&self, era: u32) -> (value: u128)
        requires
            self@.wf(),
        ensures
            value == self@.withdrawable(era),
            value + self@.active <= self@.total,
    {
        proof {
            lemma_value_split(self.unlocking@, era as int);
        }
        matured_value(&self.unlocking, era)
    }

    /// The maturity sweep: removes every chunk that is withdrawable in era
    /// `era` and takes its value out of the total. Returns the value removed.
    pub fn sweep(&mut self, era: u32) -> (withdrawn: u128)
        requires
            old(self)@.wf(),
        ensures
            final(self)@ == old(self)@.swept(era),
            final(self)@.wf(),
            withdrawn == old(self)@.withdrawable(era),
            withdrawn == old(self)@.total - final(self)@.total,
    {
        proof {
            lemma_value_split(self.unlocking@, era as int);
        }
        let withdrawn = matured_value(&self.unlocking, era);
        self.unlocking = pending_chunks(&self.unlocking, era);
        self.total = self.total - withdrawn;
        withdrawn
    }

    /// Sweeps the matured chunks, then bonds `extra` more. Returns the value
    /// that the sweep withdrew.
    ///
    /// Refused with `Overflow`, and nothing changes, if the total would leave
    /// the range of the balance type.
    pub fn bond_extra(&mut self, extra: u128, era: u32) -> (result: Result<u128, StakingError>)
        requires
            old(self)@.wf(),
        ensures
            final(self)@.wf(),
            match result {
                Ok(withdrawn) => {
                    &&& old(self)@.swept(era).total + extra <= u128::MAX
                    &&& final(self)@ == old(self)@.bonded_extra(extra as nat, era)
                    &&& withdrawn == old(self)@.withdrawable(era)
                },
                Err(e) => {
                    &&& e == StakingError::Overflow
                    &&& old(self)@.swept(era).total + extra > u128::MAX
                    &&& final(self)@ == old(self)@
                },
            },
    {
        let matured = self.withdrawable(era);
        if extra > u128::MAX - (self.total - matured) {
            return Err(StakingError::Overflow);
        }
        let withdrawn = self.sweep(era);
        self.total = self.total + extra;
        self.active = self.active + extra;
        Ok(withdrawn)
    }

    /// Takes `value` out of the active bond, or all of it if there is less.
    /// Returns the value taken.
    pub fn slash(&mut self, value: u128) -> (taken: u128)
        requires
            old(self)@.wf(),
        ensures
            final(self)@ == old(self)@.slashed(value as nat),
            final(self)@.wf(),
            taken == old(self)@.slashable(value as nat),
    {
        let taken = if value <= self.active {
            value
        } else {
            self.active
        };
        self.active = self.active - taken;
        self.total = self.total - taken;
        taken
    }

    /// Moves `value` from the active bond into a new unlocking chunk that
    /// matures `bonding_duration` eras after `era`, after a sweep of the
    /// matured chunks. A request for more than is active unbonds what is
    /// active.
    ///
    /// Refused, with nothing changed, if the remaining active bond would be
    /// below `rules.min_active` (`InsufficientBond`), or else if no slot is
    /// free after the sweep (`NoMoreChunks`).
    pub fn unbond(&mut self, value: u128, era: u32, rules: &UnbondRules) -> (result: Result<
        Unbonded,
        StakingError,
    >)
        requires
            old(self)@.wf(),
        ensures
            final(self)@.wf(),
            match result {
                Ok(done) => {
                    &&& old(self)@.unbond(value as nat, era, *rules) == Ok::<
                        LedgerView,
                        StakingError,
                    >(final(self)@)
                    &&& done.withdrawn == old(self)@.withdrawable(era)
                    &&& done.unbonded == old(self)@.unbondable(value as nat)
                },
                Err(e) => {
                    &&& old(self)@.unbond(value as nat, era, *rules) == Err::<
                        LedgerView,
                        StakingError,
                    >(e)
                    &&& final(self)@ == old(self)@
                },
            },
    {
        let v = if value <= self.active {
            value
        } else {
            self.active
        };
        if self.active - v < rules.min_active {
            return Err(StakingError::InsufficientBond);
        }
        if pending_chunks(&self.unlocking, era).len() >= rules.max_chunks as usize {
            return Err(StakingError::NoMoreChunks);
        }
        let withdrawn = self.sweep(era);
        if v > 0 {
            let chunk = UnlockChunk { value: v, era: era.saturating_add(rules.bonding_duration) };
            proof {
                lemma_sum_push(self.unlocking@, chunk);
            }
            self.active = self.active - v;
            self.unlocking.push(chunk);
        }
        Ok(Unbonded { withdrawn, unbonded: v })
    }
}

/// A second sweep in the same era finds nothing: it withdraws nothing and
/// leaves the ledger as the first sweep left it.
pub proof fn lemma_sweep_idempotent(ledger: LedgerView, era: u32)
    requires
        ledger.wf(),
    ensures
        ledger.swept(era).withdrawable(era) == 0,
        ledger.swept(era).swept(era) == ledger.swept(era),
{
    lemma_swept_has_nothing_matured(ledger.unlocking, era as int, era as int);
}

/// A sweep keeps the ledger consistent and never withdraws more than the
/// ledger holds beyond its active bond.
pub proof fn lemma_sweep_keeps_wf(ledger: LedgerView, era: u32)
    requires
        ledger.wf(),
    ensures
        ledger.swept(era).wf(),
        ledger.withdrawable(era) + ledger.active <= ledger.total,
{
    lemma_value_split(ledger.unlocking, era as int);
}

} // verus!
