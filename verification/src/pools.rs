//! The pool synchronizer: pools of members who stake together through one
//! bonded ledger each, and the running total of the value that all the pools
//! have locked.
//!
//! The pools own their ledgers, so nothing moves in a pool's ledger without
//! the synchronizer seeing it. Whatever leaves the total of a ledger, in a
//! withdrawal that a member asked for or in the sweep that precedes any other
//! operation, leaves the running total by the same amount.

use crate::balances::{free, Balances};
use crate::ledger::{
    copy_chunks, lemma_pending_twice, lemma_split_push, lemma_sum_push, lemma_sweep_keeps_wf,
    lemma_value_split, matured_value, pending, pending_chunks, sum_values, unlock_era, value_after,
    value_upto, LedgerView, StakingError, StakingLedger, UnbondRules, UnlockChunk,
};
use crate::staking::{copy_events, with_withdrawal, StakingEvent};
use sp_runtime::traits::AccountIdConversion;
use vstd::prelude::*;

verus! {

/// Why a pool operation was refused. A refused operation changes nothing.
#[derive(Clone, Copy, Debug, PartialEq, Eq, Structural)]
pub enum PoolError {
    /// The pool's ledger refused the operation.
    Staking(StakingError),
    /// No pool has this identifier.
    PoolNotFound,
    /// The account is not a member of the pool.
    PoolMemberNotFound,
    /// The account is a member of the pool already.
    AccountBelongsToOtherPool,
    /// Nothing that the member has unbonded has matured.
    CannotWithdrawAny,
    /// The member has as many unbonding entries as a member may have.
    MaxUnbondingLimit,
    /// The account does not hold what it wants to deposit.
    InsufficientBalance,
    /// A balance or a count would leave the range of its type.
    Overflow,
}

/// What the pools report of a successful call.
#[derive(Clone, Copy, Debug, PartialEq, Eq, Structural)]
pub enum PoolEvent {
    /// `depositor` opened the pool.
    Created { depositor: u64, pool_id: u32 },
    /// `member` bonded `bonded` in the pool, joining it or not.
    Bonded { member: u64, pool_id: u32, bonded: u128, joined: bool },
    /// `member` unbonded `points`, which it can be paid from era `era` on.
    Unbonded { member: u64, pool_id: u32, points: u128, era: u32 },
    /// `member` was paid `balance`.
    Withdrawn { member: u64, pool_id: u32, balance: u128 },
    /// `member` has nothing left in the pool and has left it.
    MemberRemoved { pool_id: u32, member: u64 },
}

/// The kind of account that holds the bonded funds of a pool.
pub const BONDED_ACCOUNT: u8 = 0;

/// The account that the runtime derives for the pallet `pallet_id`, the kind
/// `kind` and the index `index`: what `into_sub_account_truncating` returns
/// for them.
pub uninterp spec fn sub_account_of(pallet_id: Seq<u8>, kind: u8, index: u32) -> u64;

/// Calls `sp_runtime::traits::AccountIdConversion::into_sub_account_truncating`
/// on a `frame_support::PalletId`, with the pair of `kind` and `index` as the
/// sub-seed and a 64-bit account as the result. The runtime encodes the
/// identifier and the seed and reads the account from the first bytes; the
/// contract gives that account its name and claims no more.
#[verifier::external_body]
fn derive_sub_account(pallet_id: [u8; 8], kind: u8, index: u32) -> (account: u64)
    ensures
        account == sub_account_of(pallet_id@, kind, index),
{
    frame_support::PalletId(pallet_id).into_sub_account_truncating((kind, index))
}

/// The limits that the pools enforce.
#[derive(Clone, Copy, Debug, PartialEq, Eq)]
pub struct PoolConfig {
    /// The identifier from which the accounts of the pools are derived.
    pub pallet_id: [u8; 8],
    /// What the creator of a pool pays on top of the first bond, so that the
    /// pool's account outlives the exit of its members.
    pub existential_deposit: u128,
    /// Number of eras an unbonded chunk waits before it can be withdrawn.
    pub bonding_duration: u32,
    /// Largest number of unlocking chunks a pool's ledger may hold.
    pub max_unlocking_chunks: u32,
    /// Largest number of unbonding entries a member may have.
    pub max_unbonding: u32,
}

/// The mathematical content of a membership.
pub struct MemberView {
    pub who: u64,
    /// What the member has bonded in the pool.
    pub points: nat,
    /// What the member has unbonded and not yet been paid.
    pub unbonding: Seq<UnlockChunk>,
}

/// The mathematical content of a pool.
pub struct PoolView {
    /// The account that holds the pool's funds and owns its ledger.
    pub account: u64,
    pub ledger: LedgerView,
    /// The balance of the pool's account.
    pub funds: nat,
    pub members: Seq<MemberView>,
}

/// The mathematical content of the synchronizer.
pub struct PoolsView {
    pub config: PoolConfig,
    pub era: u32,
    /// The pools; the pool with identifier `n` is at index `n - 1`.
    pub pools: Seq<PoolView>,
    pub total_value_locked: nat,
    /// What the pools' ledgers reported, oldest first.
    pub events: Seq<StakingEvent>,
    /// What the pools reported, oldest first.
    pub pool_events: Seq<PoolEvent>,
}

/// A quantity of a membership that is summed over the members of a pool.
pub enum Measure {
    /// What the member has bonded.
    Points,
    /// What the member has unbonded and not been paid.
    Unbonding,
    /// The part of the latter that is still locked after the given era.
    After(int),
    /// What the member can claim, points and unbonded value together, if it
    /// is the given account; nothing if it is another.
    ClaimOf(u64),
}

/// The quantity `measure` of member `m`.
pub open spec fn measure_of(m: MemberView, measure: Measure) -> nat {
    match measure {
        Measure::Points => m.points,
        Measure::Unbonding => sum_values(m.unbonding),
        Measure::After(era) => value_after(m.unbonding, era),
        Measure::ClaimOf(who) => if m.who == who {
            m.points + sum_values(m.unbonding)
        } else {
            0
        },
    }
}

/// The sum of the quantity `measure` over `members`.
pub open spec fn sum_over(members: Seq<MemberView>, measure: Measure) -> nat
    decreases members.len(),
{
    if members.len() == 0 {
        0
    } else {
        sum_over(members.drop_last(), measure) + measure_of(members.last(), measure)
    }
}

/// The sum of the totals of the ledgers of `pools`.
pub open spec fn locked_sum(pools: Seq<PoolView>) -> nat
    decreases pools.len(),
{
    if pools.len() == 0 {
        0
    } else {
        locked_sum(pools.drop_last()) + pools.last().ledger.total
    }
}

/// The index of the first membership of `who` in `members`.
pub open spec fn member_position(members: Seq<MemberView>, who: u64) -> Option<nat>
    decreases members.len(),
{
    if members.len() == 0 {
        None
    } else {
        match member_position(members.drop_last(), who) {
            Some(i) => Some(i),
            None => if members.last().who == who {
                Some((members.len() - 1) as nat)
            } else {
                None
            },
        }
    }
}

/// What `who` can claim from the pool: its points and all that it has
/// unbonded and not been paid. Nothing, if it is not a member.
pub open spec fn claim(pool: PoolView, who: u64) -> nat {
    sum_over(pool.members, Measure::ClaimOf(who))
}

/// What `who` can claim from all of `pools` together.
pub open spec fn total_claim(pools: Seq<PoolView>, who: u64) -> nat
    decreases pools.len(),
{
    if pools.len() == 0 {
        0
    } else {
        total_claim(pools.drop_last(), who) + claim(pools.last(), who)
    }
}

/// What the members of all of `pools` have bonded.
pub open spec fn members_stake(pools: Seq<PoolView>) -> nat
    decreases pools.len(),
{
    if pools.len() == 0 {
        0
    } else {
        members_stake(pools.drop_last()) + sum_over(pools.last().members, Measure::Points)
    }
}

/// What the members of all of `pools` have unbonded and not been paid.
pub open spec fn members_unbonding(pools: Seq<PoolView>) -> nat
    decreases pools.len(),
{
    if pools.len() == 0 {
        0
    } else {
        members_unbonding(pools.drop_last()) + sum_over(pools.last().members, Measure::Unbonding)
    }
}

impl PoolView {
    /// The pool's books agree:
    /// the ledger is consistent; its active bond is the sum of the members'
    /// points; the account holds the existential deposit and what the members
    /// can claim; what is unlocking in the ledger is covered by what members
    /// have unbonded; and from era `era` on, what is still locked in the
    /// ledger is what is still locked for the members.
    pub open spec fn wf(self, existential_deposit: u128, era: u32) -> bool {
        &&& self.ledger.wf()
        &&& self.ledger.active == sum_over(self.members, Measure::Points)
        &&& self.funds == existential_deposit + sum_over(self.members, Measure::Points) + sum_over(
            self.members,
            Measure::Unbonding,
        )
        &&& self.funds <= u128::MAX
        &&& sum_values(self.ledger.unlocking) <= sum_over(self.members, Measure::Unbonding)
        &&& forall|s: int|
            s >= era ==> #[trigger] value_after(self.ledger.unlocking, s) == sum_over(
                self.members,
                Measure::After(s),
            )
    }

    /// The pool as `creator` opens it with a bond of `amount`.
    pub open spec fn opened(
        account: u64,
        creator: u64,
        amount: u128,
        existential_deposit: u128,
    ) -> PoolView {
        PoolView {
            account,
            ledger: LedgerView::bonded(amount as nat),
            funds: (amount + existential_deposit) as nat,
            members: seq![
                MemberView { who: creator, points: amount as nat, unbonding: Seq::empty() },
            ],
        }
    }

    /// The members after `who` has deposited `amount`: a new membership at the
    /// end, or more points for the member at `at`.
    pub open spec fn members_after_deposit(self, at: Option<nat>, who: u64, amount: u128) -> Seq<
        MemberView,
    > {
        match at {
            Some(j) => self.members.update(
                j as int,
                MemberView {
                    points: self.members[j as int].points + amount as nat,
                    ..self.members[j as int]
                },
            ),
            None => self.members.push(
                MemberView { who, points: amount as nat, unbonding: Seq::empty() },
            ),
        }
    }

    /// The pool after a sweep in era `era` and a deposit of `amount` by `who`.
    pub open spec fn deposited(
        self,
        at: Option<nat>,
        who: u64,
        amount: u128,
        era: u32,
    ) -> PoolView {
        PoolView {
            account: self.account,
            ledger: self.ledger.bonded_extra(amount as nat, era),
            funds: self.funds + amount as nat,
            members: self.members_after_deposit(at, who, amount),
        }
    }

    /// The pool after the member at `j` has unbonded `value` in era `era`,
    /// with `ledger` as the ledger that results.
    pub open spec fn unbonded(
        self,
        j: int,
        value: nat,
        era: u32,
        bonding_duration: u32,
        ledger: LedgerView,
    ) -> PoolView {
        let m = self.members[j];
        PoolView {
            account: self.account,
            ledger,
            funds: self.funds,
            members: self.members.update(
                j,
                MemberView {
                    who: m.who,
                    points: (m.points - value) as nat,
                    unbonding: if value > 0 {
                        m.unbonding.push(
                            UnlockChunk {
                                value: value as u128,
                                era: unlock_era(era, bonding_duration),
                            },
                        )
                    } else {
                        m.unbonding
                    },
                },
            ),
        }
    }

    /// Whether the member at `j` has nothing left in the pool once it is paid
    /// what has matured in era `era`.
    pub open spec fn leaves(self, j: int, era: u32) -> bool {
        self.members[j].points == 0 && pending(self.members[j].unbonding, era as int).len() == 0
    }

    /// The pool after a sweep in era `era` and the payment to the member at
    /// `j` of what has matured for it. A member that has nothing left in the
    /// pool leaves it.
    pub open spec fn paid_out(self, j: int, era: u32) -> PoolView {
        let m = self.members[j];
        let left = pending(m.unbonding, era as int);
        PoolView {
            account: self.account,
            ledger: self.ledger.swept(era),
            funds: (self.funds - value_upto(m.unbonding, era as int)) as nat,
            members: if m.points == 0 && left.len() == 0 {
                self.members.remove(j)
            } else {
                self.members.update(j, MemberView { who: m.who, points: m.points, unbonding: left })
            },
        }
    }
}

impl PoolsView {
    /// The running total is the sum of the totals of the pools' ledgers, and
    /// the books of every pool agree.
    pub open spec fn wf(self) -> bool {
        &&& self.total_value_locked == locked_sum(self.pools)
        &&& self.total_value_locked <= u128::MAX
        &&& self.pools.len() <= u32::MAX
        &&& forall|i: int|
            0 <= i < self.pools.len() ==> (#[trigger] self.pools[i]).wf(
                self.config.existential_deposit,
                self.era,
            )
    }

    /// The synchronizer before the first pool.
    pub open spec fn initial(config: PoolConfig) -> PoolsView {
        PoolsView {
            config,
            era: 0,
            pools: Seq::empty(),
            total_value_locked: 0,
            events: Seq::empty(),
            pool_events: Seq::empty(),
        }
    }

    /// The synchronizer with `reports` added to what the pools reported.
    pub open spec fn noting(self, reports: Seq<PoolEvent>) -> PoolsView {
        PoolsView { pool_events: self.pool_events + reports, ..self }
    }

    /// Whether `pool_id` names a pool.
    pub open spec fn has_pool(self, pool_id: u32) -> bool {
        1 <= pool_id <= self.pools.len()
    }

    /// The rules under which a pool's ledger unbonds: no minimum is kept.
    pub open spec fn rules(self) -> UnbondRules {
        UnbondRules {
            min_active: 0,
            max_chunks: self.config.max_unlocking_chunks,
            bonding_duration: self.config.bonding_duration,
        }
    }

    /// The synchronizer with the pool at `i` replaced, after its ledger
    /// withdrew `withdrawn` and took `bonded`, and with `events` appended.
    pub open spec fn with_pool(
        self,
        i: int,
        pool: PoolView,
        withdrawn: nat,
        bonded: nat,
        events: Seq<StakingEvent>,
    ) -> PoolsView {
        PoolsView {
            config: self.config,
            era: self.era,
            pools: self.pools.update(i, pool),
            total_value_locked: (self.total_value_locked - withdrawn + bonded) as nat,
            events: self.events + events,
            pool_events: self.pool_events,
        }
    }

    /// The clock reports that era `era` has begun. Eras never run backwards.
    pub open spec fn start_era(self, era: u32) -> PoolsView {
        PoolsView { era: if era > self.era { era } else { self.era }, ..self }
    }

    /// The account that holds the funds of the pool `pool_id`.
    pub open spec fn bonded_account_of(self, pool_id: u32) -> u64 {
        sub_account_of(self.config.pallet_id@, BONDED_ACCOUNT, pool_id)
    }

    /// `creator` opens a pool, whose funds are held by the account that the
    /// runtime derives for it.
    pub open spec fn create(self, book: Map<u64, u128>, creator: u64, amount: u128) -> (
        PoolsView,
        Map<u64, u128>,
        Result<u32, PoolError>,
    ) {
        self.create_at(
            book,
            creator,
            amount,
            self.bonded_account_of((self.pools.len() + 1) as u32),
        )
    }

    /// `creator` opens a pool whose funds are held by `account`, bonds
    /// `amount` in it, and pays the existential deposit on top. Returns the
    /// identifier of the pool.
    pub open spec fn create_at(
        self,
        book: Map<u64, u128>,
        creator: u64,
        amount: u128,
        account: u64,
    ) -> (PoolsView, Map<u64, u128>, Result<u32, PoolError>) {
        let ed = self.config.existential_deposit;
        if self.pools.len() >= u32::MAX || amount + ed > u128::MAX || self.total_value_locked
            + amount > u128::MAX {
            (self, book, Err(PoolError::Overflow))
        } else if free(book, creator) < amount + ed {
            (self, book, Err(PoolError::InsufficientBalance))
        } else {
            (
                PoolsView {
                    config: self.config,
                    era: self.era,
                    pools: self.pools.push(PoolView::opened(account, creator, amount, ed)),
                    total_value_locked: self.total_value_locked + amount as nat,
                    events: self.events + seq![StakingEvent::Bonded { stash: account, amount }],
                    pool_events: self.pool_events + seq![
                        PoolEvent::Created {
                            depositor: creator,
                            pool_id: (self.pools.len() + 1) as u32,
                        },
                        PoolEvent::Bonded {
                            member: creator,
                            pool_id: (self.pools.len() + 1) as u32,
                            bonded: amount,
                            joined: true,
                        },
                    ],
                },
                book.insert(creator, (free(book, creator) - amount - ed) as u128),
                Ok((self.pools.len() + 1) as u32),
            )
        }
    }

    /// `who` deposits `amount` in the pool `pool_id`: as a new member if
    /// `joining`, and as a member that adds to its points if not. The pool's
    /// ledger is swept first.
    pub open spec fn deposit(
        self,
        book: Map<u64, u128>,
        who: u64,
        amount: u128,
        pool_id: u32,
        joining: bool,
    ) -> (PoolsView, Map<u64, u128>, Result<(), PoolError>) {
        if !self.has_pool(pool_id) {
            (self, book, Err(PoolError::PoolNotFound))
        } else {
            let i = pool_id - 1;
            let pool = self.pools[i];
            let at = member_position(pool.members, who);
            let withdrawn = pool.ledger.withdrawable(self.era);
            if joining && at is Some {
                (self, book, Err(PoolError::AccountBelongsToOtherPool))
            } else if !joining && at is None {
                (self, book, Err(PoolError::PoolMemberNotFound))
            } else if free(book, who) < amount {
                (self, book, Err(PoolError::InsufficientBalance))
            } else if pool.funds + amount > u128::MAX || self.total_value_locked - withdrawn
                + amount > u128::MAX {
                (self, book, Err(PoolError::Overflow))
            } else {
                (
                    self.with_pool(
                        i,
                        pool.deposited(at, who, amount, self.era),
                        withdrawn,
                        amount as nat,
                        with_withdrawal(
                            pool.account,
                            withdrawn,
                            seq![StakingEvent::Bonded { stash: pool.account, amount }],
                        ),
                    ).noting(
                        seq![
                            PoolEvent::Bonded {
                                member: who,
                                pool_id,
                                bonded: amount,
                                joined: joining,
                            },
                        ],
                    ),
                    book.insert(who, (free(book, who) - amount) as u128),
                    Ok(()),
                )
            }
        }
    }

    /// `who` joins the pool `pool_id` with `amount`.
    pub open spec fn join(self, book: Map<u64, u128>, who: u64, amount: u128, pool_id: u32) -> (
        PoolsView,
        Map<u64, u128>,
        Result<(), PoolError>,
    ) {
        self.deposit(book, who, amount, pool_id, true)
    }

    /// The member `who` of the pool `pool_id` bonds `amount` more.
    pub open spec fn bond_extra(
        self,
        book: Map<u64, u128>,
        who: u64,
        amount: u128,
        pool_id: u32,
    ) -> (PoolsView, Map<u64, u128>, Result<(), PoolError>) {
        self.deposit(book, who, amount, pool_id, false)
    }

    /// The member `who` of the pool `pool_id` unbonds `points`, or all its
    /// points if it has fewer. The pool's ledger is swept first.
    pub open spec fn unbond(self, who: u64, points: u128, pool_id: u32) -> (
        PoolsView,
        Result<(), PoolError>,
    ) {
        if !self.has_pool(pool_id) {
            (self, Err(PoolError::PoolNotFound))
        } else {
            let i = pool_id - 1;
            let pool = self.pools[i];
            match member_position(pool.members, who) {
                None => (self, Err(PoolError::PoolMemberNotFound)),
                Some(j) => {
                    let m = pool.members[j as int];
                    let value = if points <= m.points {
                        points as nat
                    } else {
                        m.points
                    };
                    if value > 0 && m.unbonding.len() >= self.config.max_unbonding {
                        (self, Err(PoolError::MaxUnbondingLimit))
                    } else {
                        match pool.ledger.unbond(value, self.era, self.rules()) {
                            Err(e) => (self, Err(PoolError::Staking(e))),
                            Ok(ledger) => {
                                let withdrawn = pool.ledger.withdrawable(self.era);
                                (
                                    self.with_pool(
                                        i,
                                        pool.unbonded(
                                            j as int,
                                            value,
                                            self.era,
                                            self.config.bonding_duration,
                                            ledger,
                                        ),
                                        withdrawn,
                                        0,
                                        with_withdrawal(
                                            pool.account,
                                            withdrawn,
                                            if value > 0 {
                                                seq![
                                                    StakingEvent::Unbonded {
                                                        stash: pool.account,
                                                        amount: value as u128,
                                                    },
                                                ]
                                            } else {
                                                Seq::empty()
                                            },
                                        ),
                                    ).noting(
                                        if value > 0 {
                                            seq![
                                                PoolEvent::Unbonded {
                                                    member: who,
                                                    pool_id,
                                                    points: value as u128,
                                                    era: unlock_era(
                                                        self.era,
                                                        self.config.bonding_duration,
                                                    ),
                                                },
                                            ]
                                        } else {
                                            Seq::empty()
                                        },
                                    ),
                                    Ok(()),
                                )
                            },
                        }
                    }
                },
            }
        }
    }

    /// The member `who` of the pool `pool_id` is paid what it has unbonded and
    /// has matured. The pool's ledger is swept first. Returns the amount
    /// paid.
    pub open spec fn withdraw_unbonded(self, book: Map<u64, u128>, who: u64, pool_id: u32) -> (
        PoolsView,
        Map<u64, u128>,
        Result<u128, PoolError>,
    ) {
        if !self.has_pool(pool_id) {
            (self, book, Err(PoolError::PoolNotFound))
        } else {
            let i = pool_id - 1;
            let pool = self.pools[i];
            match member_position(pool.members, who) {
                None => (self, book, Err(PoolError::PoolMemberNotFound)),
                Some(j) => {
                    let paid = value_upto(pool.members[j as int].unbonding, self.era as int);
                    let withdrawn = pool.ledger.withdrawable(self.era);
                    if paid == 0 {
                        (self, book, Err(PoolError::CannotWithdrawAny))
                    } else if free(book, who) + paid > u128::MAX {
                        (self, book, Err(PoolError::Overflow))
                    } else {
                        (
                            self.with_pool(
                                i,
                                pool.paid_out(j as int, self.era),
                                withdrawn,
                                0,
                                with_withdrawal(pool.account, withdrawn, Seq::empty()),
                            ).noting(
                                if pool.leaves(j as int, self.era) {
                                    seq![
                                        PoolEvent::Withdrawn {
                                            member: who,
                                            pool_id,
                                            balance: paid as u128,
                                        },
                                        PoolEvent::MemberRemoved { pool_id, member: who },
                                    ]
                                } else {
                                    seq![
                                        PoolEvent::Withdrawn {
                                            member: who,
                                            pool_id,
                                            balance: paid as u128,
                                        },
                                    ]
                                },
                            ),
                            book.insert(who, (free(book, who) + paid) as u128),
                            Ok(paid as u128),
                        )
                    }
                },
            }
        }
    }

    /// Anyone has the ledger of the pool `pool_id` swept. Returns the value
    /// withdrawn.
    pub open spec fn pool_withdraw_unbonded(self, pool_id: u32) -> (
        PoolsView,
        Result<u128, PoolError>,
    ) {
        if !self.has_pool(pool_id) {
            (self, Err(PoolError::PoolNotFound))
        } else {
            let i = pool_id - 1;
            let pool = self.pools[i];
            let withdrawn = pool.ledger.withdrawable(self.era);
            (
                self.with_pool(
                    i,
                    PoolView { ledger: pool.ledger.swept(self.era), ..pool },
                    withdrawn,
                    0,
                    with_withdrawal(pool.account, withdrawn, Seq::empty()),
                ),
                Ok(withdrawn as u128),
            )
        }
    }
}

/// Appending a member adds its quantity to the sum.
pub proof fn lemma_sum_over_push(members: Seq<MemberView>, m: MemberView, measure: Measure)
    ensures
        sum_over(members.push(m), measure) == sum_over(members, measure) + measure_of(m, measure),
{
    assert(members.push(m).drop_last() =~= members);
}

/// Replacing a member exchanges its quantity in the sum.
pub proof fn lemma_sum_over_update(
    members: Seq<MemberView>,
    j: int,
    m: MemberView,
    measure: Measure,
)
    requires
        0 <= j < members.len(),
    ensures
        sum_over(members.update(j, m), measure) + measure_of(members[j], measure) == sum_over(
            members,
            measure,
        ) + measure_of(m, measure),
    decreases members.len(),
{
    if j == members.len() - 1 {
        assert(members.update(j, m).drop_last() =~= members.drop_last());
    } else {
        lemma_sum_over_update(members.drop_last(), j, m, measure);
        assert(members.update(j, m).drop_last() =~= members.drop_last().update(j, m));
    }
}

/// Removing a member takes its quantity out of the sum.
pub proof fn lemma_sum_over_remove(members: Seq<MemberView>, j: int, measure: Measure)
    requires
        0 <= j < members.len(),
    ensures
        sum_over(members.remove(j), measure) + measure_of(members[j], measure) == sum_over(
            members,
            measure,
        ),
    decreases members.len(),
{
    if j == members.len() - 1 {
    } else {
        lemma_sum_over_remove(members.drop_last(), j, measure);
        assert(members.remove(j).drop_last() =~= members.drop_last().remove(j));
    }
}

/// The quantity of one member is at most the sum over all.
pub proof fn lemma_member_within_sum(members: Seq<MemberView>, j: int, measure: Measure)
    requires
        0 <= j < members.len(),
    ensures
        measure_of(members[j], measure) <= sum_over(members, measure),
    decreases members.len(),
{
    if j < members.len() - 1 {
        lemma_member_within_sum(members.drop_last(), j, measure);
    }
}

/// What is still locked for the members after an era is part of what they
/// have unbonded.
pub proof fn lemma_locked_within_unbonding(members: Seq<MemberView>, era: int)
    ensures
        sum_over(members, Measure::After(era)) <= sum_over(members, Measure::Unbonding),
    decreases members.len(),
{
    if members.len() > 0 {
        lemma_locked_within_unbonding(members.drop_last(), era);
        lemma_value_split(members.last().unbonding, era);
    }
}

/// Appending a pool adds the total of its ledger to the sum.
pub proof fn lemma_locked_sum_push(pools: Seq<PoolView>, pool: PoolView)
    ensures
        locked_sum(pools.push(pool)) == locked_sum(pools) + pool.ledger.total,
{
    assert(pools.push(pool).drop_last() =~= pools);
}

/// Replacing a pool exchanges the total of its ledger in the sum, and the
/// total of one ledger is at most the sum.
pub proof fn lemma_locked_sum_update(pools: Seq<PoolView>, i: int, pool: PoolView)
    requires
        0 <= i < pools.len(),
    ensures
        locked_sum(pools.update(i, pool)) + pools[i].ledger.total == locked_sum(pools)
            + pool.ledger.total,
        pools[i].ledger.total <= locked_sum(pools),
    decreases pools.len(),
{
    if i == pools.len() - 1 {
        assert(pools.update(i, pool).drop_last() =~= pools.drop_last());
    } else {
        lemma_locked_sum_update(pools.drop_last(), i, pool);
        assert(pools.update(i, pool).drop_last() =~= pools.drop_last().update(i, pool));
    }
}

/// `member_position` finds the first membership of `who`, or nothing if
/// there is none.
pub proof fn lemma_member_position(members: Seq<MemberView>, who: u64)
    ensures
        match member_position(members, who) {
            Some(j) => j < members.len() && members[j as int].who == who && forall|k: int|
                0 <= k < j ==> members[k].who != who,
            None => forall|k: int| 0 <= k < members.len() ==> members[k].who != who,
        },
    decreases members.len(),
{
    if members.len() > 0 {
        let init = members.drop_last();
        lemma_member_position(init, who);
        assert(forall|k: int| 0 <= k < init.len() ==> init[k] == members[k]);
        match member_position(init, who) {
            Some(j) => {
            },
            None => {
            },
        }
    }
}

/// After a sweep in era `era`, what is locked after any later era is what was
/// locked after it before.
pub proof fn lemma_value_after_swept(chunks: Seq<UnlockChunk>, era: int, s: int)
    requires
        s >= era,
    ensures
        value_after(pending(chunks, era), s) == value_after(chunks, s),
{
    lemma_pending_twice(chunks, era, s);
}

/// A new chunk adds its value to what is locked after every era before its
/// own.
pub proof fn lemma_value_after_push(chunks: Seq<UnlockChunk>, c: UnlockChunk, s: int)
    ensures
        value_after(chunks.push(c), s) == value_after(chunks, s) + if c.era > s {
            c.value as nat
        } else {
            0nat
        },
{
    lemma_split_push(chunks, c, s);
    if c.era > s {
        lemma_sum_push(pending(chunks, s), c);
    }
}

/// A deposit keeps the books of a pool in agreement, and its ledger withdraws
/// no more than it holds.
pub proof fn lemma_deposited_keeps_wf(
    pool: PoolView,
    who: u64,
    amount: u128,
    existential_deposit: u128,
    era: u32,
)
    requires
        pool.wf(existential_deposit, era),
        pool.funds + amount <= u128::MAX,
        pool.ledger.swept(era).total + amount <= u128::MAX,
    ensures
        pool.deposited(member_position(pool.members, who), who, amount, era).wf(
            existential_deposit,
            era,
        ),
        pool.ledger.withdrawable(era) <= pool.ledger.total,
        pool.deposited(member_position(pool.members, who), who, amount, era).ledger.total
            == pool.ledger.total - pool.ledger.withdrawable(era) + amount,
{
    let at = member_position(pool.members, who);
    let after = pool.deposited(at, who, amount, era);
    lemma_member_position(pool.members, who);
    lemma_sweep_keeps_wf(pool.ledger, era);
    lemma_value_split(pool.ledger.unlocking, era as int);
    lemma_locked_within_unbonding(pool.members, era as int);
    match at {
        Some(j) => {
            let m = after.members[j as int];
            lemma_sum_over_update(pool.members, j as int, m, Measure::Points);
            lemma_sum_over_update(pool.members, j as int, m, Measure::Unbonding);
        },
        None => {
            let m = MemberView { who, points: amount as nat, unbonding: Seq::empty() };
            lemma_sum_over_push(pool.members, m, Measure::Points);
            lemma_sum_over_push(pool.members, m, Measure::Unbonding);
        },
    }
    assert forall|s: int| s >= era implies #[trigger] value_after(after.ledger.unlocking, s)
        == sum_over(after.members, Measure::After(s)) by {
        lemma_value_after_swept(pool.ledger.unlocking, era as int, s);
        match at {
            Some(j) => {
                lemma_sum_over_update(
                    pool.members,
                    j as int,
                    after.members[j as int],
                    Measure::After(s),
                );
            },
            None => {
                let m = MemberView { who, points: amount as nat, unbonding: Seq::empty() };
                lemma_sum_over_push(pool.members, m, Measure::After(s));
            },
        }
    }
}

/// An unbond by a member keeps the books of a pool in agreement.
pub proof fn lemma_unbonded_keeps_wf(
    pool: PoolView,
    j: int,
    value: nat,
    existential_deposit: u128,
    era: u32,
    rules: UnbondRules,
)
    requires
        pool.wf(existential_deposit, era),
        0 <= j < pool.members.len(),
        value <= pool.members[j].points,
        rules.min_active == 0,
        pool.ledger.unbond(value, era, rules) is Ok,
    ensures
        pool.unbonded(
            j,
            value,
            era,
            rules.bonding_duration,
            pool.ledger.unbond(value, era, rules)->Ok_0,
        ).wf(existential_deposit, era),
        pool.ledger.withdrawable(era) <= pool.ledger.total,
        pool.ledger.unbond(value, era, rules)->Ok_0.total == pool.ledger.total
            - pool.ledger.withdrawable(era),
        pool.ledger.swept(era).unbondable(value) == value,
{
    let ledger = pool.ledger.unbond(value, era, rules)->Ok_0;
    let after = pool.unbonded(j, value, era, rules.bonding_duration, ledger);
    let swept = pool.ledger.swept(era);
    let chunk = UnlockChunk { value: value as u128, era: unlock_era(era, rules.bonding_duration) };
    lemma_sweep_keeps_wf(pool.ledger, era);
    lemma_value_split(pool.ledger.unlocking, era as int);
    lemma_locked_within_unbonding(pool.members, era as int);
    lemma_member_within_sum(pool.members, j, Measure::Points);
    lemma_sum_over_update(pool.members, j, after.members[j], Measure::Points);
    lemma_sum_over_update(pool.members, j, after.members[j], Measure::Unbonding);
    if value > 0 {
        lemma_sum_push(swept.unlocking, chunk);
        lemma_sum_push(pool.members[j].unbonding, chunk);
    }
    assert forall|s: int| s >= era implies #[trigger] value_after(after.ledger.unlocking, s)
        == sum_over(after.members, Measure::After(s)) by {
        lemma_value_after_swept(pool.ledger.unlocking, era as int, s);
        lemma_sum_over_update(pool.members, j, after.members[j], Measure::After(s));
        if value > 0 {
            lemma_value_after_push(swept.unlocking, chunk, s);
            lemma_value_after_push(pool.members[j].unbonding, chunk, s);
        }
    }
}

/// A payment to a member keeps the books of a pool in agreement, and the
/// pool's account covers it without touching what its ledger still holds.
pub proof fn lemma_paid_out_keeps_wf(pool: PoolView, j: int, existential_deposit: u128, era: u32)
    requires
        pool.wf(existential_deposit, era),
        0 <= j < pool.members.len(),
    ensures
        pool.paid_out(j, era).wf(existential_deposit, era),
        pool.ledger.withdrawable(era) <= pool.ledger.total,
        pool.paid_out(j, era).ledger.total == pool.ledger.total - pool.ledger.withdrawable(era),
        value_upto(pool.members[j].unbonding, era as int) + pool.paid_out(j, era).ledger.total
            + existential_deposit <= pool.funds,
        sum_values(pool.members[j].unbonding) <= u128::MAX,
{
    let after = pool.paid_out(j, era);
    let m = pool.members[j];
    let left = pending(m.unbonding, era as int);
    let kept = MemberView { who: m.who, points: m.points, unbonding: left };
    lemma_sweep_keeps_wf(pool.ledger, era);
    lemma_value_split(pool.ledger.unlocking, era as int);
    lemma_value_split(m.unbonding, era as int);
    lemma_member_within_sum(pool.members, j, Measure::Unbonding);
    lemma_pending_twice(m.unbonding, era as int, era as int);
    let gone = m.points == 0 && left.len() == 0;
    if gone {
        lemma_sum_over_remove(pool.members, j, Measure::Points);
        lemma_sum_over_remove(pool.members, j, Measure::Unbonding);
        lemma_sum_over_remove(pool.members, j, Measure::After(era as int));
    } else {
        lemma_sum_over_update(pool.members, j, kept, Measure::Points);
        lemma_sum_over_update(pool.members, j, kept, Measure::Unbonding);
        lemma_sum_over_update(pool.members, j, kept, Measure::After(era as int));
    }
    lemma_locked_within_unbonding(after.members, era as int);
    assert forall|s: int| s >= era implies #[trigger] value_after(after.ledger.unlocking, s)
        == sum_over(after.members, Measure::After(s)) by {
        lemma_value_after_swept(pool.ledger.unlocking, era as int, s);
        lemma_value_after_swept(m.unbonding, era as int, s);
        if gone {
            lemma_sum_over_remove(pool.members, j, Measure::After(s));
        } else {
            lemma_sum_over_update(pool.members, j, kept, Measure::After(s));
        }
    }
}

/// A sweep of its ledger keeps the books of a pool in agreement.
pub proof fn lemma_swept_keeps_wf(pool: PoolView, existential_deposit: u128, era: u32)
    requires
        pool.wf(existential_deposit, era),
    ensures
        (PoolView { ledger: pool.ledger.swept(era), ..pool }).wf(existential_deposit, era),
        pool.ledger.withdrawable(era) <= pool.ledger.total,
        pool.ledger.swept(era).total == pool.ledger.total - pool.ledger.withdrawable(era),
{
    let after = PoolView { ledger: pool.ledger.swept(era), ..pool };
    lemma_sweep_keeps_wf(pool.ledger, era);
    lemma_value_split(pool.ledger.unlocking, era as int);
    lemma_locked_within_unbonding(pool.members, era as int);
    assert forall|s: int| s >= era implies #[trigger] value_after(after.ledger.unlocking, s)
        == sum_over(after.members, Measure::After(s)) by {
        lemma_value_after_swept(pool.ledger.unlocking, era as int, s);
    }
}

/// Replacing one pool by a pool whose books agree, and moving the running
/// total by what the pool's ledger withdrew and took, keeps the running total
/// equal to the sum of the ledgers.
pub proof fn lemma_with_pool_keeps_wf(
    pools: PoolsView,
    i: int,
    pool: PoolView,
    withdrawn: nat,
    bonded: nat,
    events: Seq<StakingEvent>,
)
    requires
        pools.wf(),
        0 <= i < pools.pools.len(),
        pool.wf(pools.config.existential_deposit, pools.era),
        withdrawn <= pools.pools[i].ledger.total,
        pool.ledger.total == pools.pools[i].ledger.total - withdrawn + bonded,
        pools.total_value_locked - withdrawn + bonded <= u128::MAX,
    ensures
        pools.with_pool(i, pool, withdrawn, bonded, events).wf(),
        withdrawn <= pools.total_value_locked,
{
    lemma_locked_sum_update(pools.pools, i, pool);
}

/// A newly opened pool has books that agree.
pub proof fn lemma_opened_is_wf(
    account: u64,
    creator: u64,
    amount: u128,
    existential_deposit: u128,
    era: u32,
)
    requires
        amount + existential_deposit <= u128::MAX,
    ensures
        PoolView::opened(account, creator, amount, existential_deposit).wf(
            existential_deposit,
            era,
        ),
{
    let pool = PoolView::opened(account, creator, amount, existential_deposit);
    let m = MemberView { who: creator, points: amount as nat, unbonding: Seq::empty() };
    lemma_sum_over_push(Seq::empty(), m, Measure::Points);
    lemma_sum_over_push(Seq::empty(), m, Measure::Unbonding);
    assert forall|s: int| s >= era implies #[trigger] value_after(pool.ledger.unlocking, s)
        == sum_over(pool.members, Measure::After(s)) by {
        lemma_sum_over_push(Seq::empty(), m, Measure::After(s));
    }
}

/// One membership of a pool.
#[derive(Debug)]
pub struct PoolMember {
    who: u64,
    points: u128,
    unbonding: Vec<UnlockChunk>,
}

impl View for PoolMember {
    type V = MemberView;

    closed spec fn view(&self) -> MemberView {
        MemberView { who: self.who, points: self.points as nat, unbonding: self.unbonding@ }
    }
}

/// The contents of `members`, in their order.
pub closed spec fn member_views(members: Seq<PoolMember>) -> Seq<MemberView> {
    Seq::new(members.len(), |k: int| members[k]@)
}

/// One pool.
#[derive(Debug)]
pub struct BondedPool {
    account: u64,
    ledger: StakingLedger,
    funds: u128,
    members: Vec<PoolMember>,
}

impl View for BondedPool {
    type V = PoolView;

    closed spec fn view(&self) -> PoolView {
        PoolView {
            account: self.account,
            ledger: self.ledger@,
            funds: self.funds as nat,
            members: member_views(self.members@),
        }
    }
}

/// The contents of `pools`, in their order.
pub closed spec fn pool_views(pools: Seq<BondedPool>) -> Seq<PoolView> {
    Seq::new(pools.len(), |k: int| pools[k]@)
}

/// The pool synchronizer.
pub struct Pools {
    config: PoolConfig,
    era: u32,
    pools: Vec<BondedPool>,
    total_value_locked: u128,
    events: Vec<StakingEvent>,
    pool_events: Vec<PoolEvent>,
}

impl View for Pools {
    type V = PoolsView;

    closed spec fn view(&self) -> PoolsView {
        PoolsView {
            config: self.config,
            era: self.era,
            pools: pool_views(self.pools@),
            total_value_locked: self.total_value_locked as nat,
            events: self.events@,
            pool_events: self.pool_events@,
        }
    }
}

/// The index of the first membership of `who` in `members`.
fn find_member(members: &Vec<PoolMember>, who: u64) -> (index: Option<usize>)
    ensures
        match index {
            Some(j) => j < members.len() && member_position(member_views(members@), who) == Some(
                j as nat,
            ),
            None => member_position(member_views(members@), who).is_none(),
        },
{
    let mut j: usize = 0;
    while j < members.len()
        invariant
            j <= members.len(),
            forall|k: int| 0 <= k < j ==> member_views(members@)[k].who != who,
        decreases members.len() - j,
    {
        if members[j].who == who {
            proof {
                assert(member_views(members@)[j as int] == members@[j as int]@);
                lemma_member_position(member_views(members@), who);
            }
            return Some(j);
        }
        j = j + 1;
    }
    proof {
        lemma_member_position(member_views(members@), who);
    }
    None
}

impl Pools {
    /// A synchronizer in era 0 without pools.
    pub fn new(config: PoolConfig) -> (pools: Self)
        ensures
            pools@ == PoolsView::initial(config),
            pools@.wf(),
    {
        let pools = Pools {
            config,
            era: 0,
            pools: Vec::new(),
            total_value_locked: 0,
            events: Vec::new(),
            pool_events: Vec::new(),
        };
        proof {
            assert(pools@.pools =~= Seq::<PoolView>::empty());
        }
        pools
    }

    /// The limits that the pools enforce.
    pub fn config(&self) -> (config: PoolConfig)
        ensures
            config == self@.config,
    {
        self.config
    }

    /// The current era.
    pub fn current_era(&self) -> (era: u32)
        ensures
            era == self@.era,
    {
        self.era
    }

    /// The running total of the value that the pools have locked.
    pub fn total_value_locked(&self) -> (total: u128)
        ensures
            total == self@.total_value_locked,
    {
        self.total_value_locked
    }

    /// The number of pools.
    pub fn pool_count(&self) -> (count: usize)
        ensures
            count == self@.pools.len(),
    {
        self.pools.len()
    }

    /// A snapshot of the ledger of the pool `pool_id`, if there is such a
    /// pool.
    pub fn ledger(&self, pool_id: u32) -> (ledger: Option<StakingLedger>)
        ensures
            match ledger {
                Some(l) => self@.has_pool(pool_id) && l@ == self@.pools[pool_id - 1].ledger,
                None => !self@.has_pool(pool_id),
            },
    {
        if pool_id == 0 || pool_id as usize > self.pools.len() {
            None
        } else {
            Some(self.pools[(pool_id - 1) as usize].ledger.copy())
        }
    }

    /// The account that holds the funds of the pool `pool_id`, and its
    /// balance, if there is such a pool.
    pub fn bonded_account(&self, pool_id: u32) -> (account: Option<(u64, u128)>)
        ensures
            match account {
                Some((who, funds)) => self@.has_pool(pool_id) && who == self@.pools[pool_id
                    - 1].account && funds == self@.pools[pool_id - 1].funds,
                None => !self@.has_pool(pool_id),
            },
    {
        if pool_id == 0 || pool_id as usize > self.pools.len() {
            None
        } else {
            let pool = &self.pools[(pool_id - 1) as usize];
            Some((pool.account, pool.funds))
        }
    }

    /// The points of the member `who` of the pool `pool_id` and what it has
    /// unbonded and not been paid, if there is such a member.
    pub fn member(&self, pool_id: u32, who: u64) -> (member: Option<(u128, Vec<UnlockChunk>)>)
        ensures
            match member {
                Some((points, unbonding)) => {
                    &&& self@.has_pool(pool_id)
                    &&& member_position(self@.pools[pool_id - 1].members, who) matches Some(j)
                    &&& points == self@.pools[pool_id - 1].members[j as int].points
                    &&& unbonding@ == self@.pools[pool_id - 1].members[j as int].unbonding
                },
                None => !self@.has_pool(pool_id) || member_position(
                    self@.pools[pool_id - 1].members,
                    who,
                ) is None,
            },
    {
        if pool_id == 0 || pool_id as usize > self.pools.len() {
            return None;
        }
        let pool = &self.pools[(pool_id - 1) as usize];
        match find_member(&pool.members, who) {
            None => None,
            Some(j) => Some((pool.members[j].points, copy_chunks(&pool.members[j].unbonding))),
        }
    }

    /// What the pools' ledgers reported since the log was last reset, oldest
    /// first.
    pub fn events(&self) -> (events: Vec<StakingEvent>)
        ensures
            events@ == self@.events,
    {
        copy_events(&self.events)
    }

    /// What the pools reported since the logs were last reset, oldest first.
    pub fn pool_events(&self) -> (events: Vec<PoolEvent>)
        ensures
            events@ == self@.pool_events,
    {
        let mut events: Vec<PoolEvent> = Vec::new();
        let mut i: usize = 0;
        while i < self.pool_events.len()
            invariant
                i <= self.pool_events.len(),
                events@ == self.pool_events@.take(i as int),
            decreases self.pool_events.len() - i,
        {
            events.push(self.pool_events[i]);
            i = i + 1;
        }
        events
    }

    /// Empties both event logs.
    pub fn reset_events(&mut self)
        ensures
            final(self)@ == (PoolsView {
                events: Seq::empty(),
                pool_events: Seq::empty(),
                ..old(self)@
            }),
            old(self)@.wf() ==> final(self)@.wf(),
    {
        self.events = Vec::new();
        self.pool_events = Vec::new();
    }

    /// Appends one report of the pools.
    fn report(&mut self, event: PoolEvent)
        ensures
            final(self)@ == (PoolsView {
                pool_events: old(self)@.pool_events.push(event),
                ..old(self)@
            }),
    {
        self.pool_events.push(event);
    }

    /// The clock reports that era `era` has begun.
    pub fn start_era(&mut self, era: u32)
        requires
            old(self)@.wf(),
        ensures
            final(self)@ == old(self)@.start_era(era),
            final(self)@.wf(),
    {
        if era > self.era {
            self.era = era;
        }
    }

    /// Appends what the ledger of `stash` reports: a withdrawal of
    /// `withdrawn`, if anything was withdrawn, and then `then`, if anything.
    fn note(&mut self, stash: u64, withdrawn: u128, then: Option<StakingEvent>)
        ensures
            final(self)@ == (PoolsView {
                events: old(self)@.events + with_withdrawal(
                    stash,
                    withdrawn as nat,
                    match then {
                        Some(e) => seq![e],
                        None => Seq::empty(),
                    },
                ),
                ..old(self)@
            }),
    {
        if withdrawn > 0 {
            self.events.push(StakingEvent::Withdrawn { stash, amount: withdrawn });
        }
        match then {
            Some(e) => {
                self.events.push(e);
            },
            None => {},
        }
        proof {
            assert(final(self)@.events =~= old(self)@.events + with_withdrawal(
                stash,
                withdrawn as nat,
                match then {
                    Some(e) => seq![e],
                    None => Seq::empty(),
                },
            ));
        }
    }

    /// Takes the pool at `i` out of the list.
    fn take_pool(&mut self, i: usize) -> (pool: BondedPool)
        requires
            i < old(self)@.pools.len(),
        ensures
            pool@ == old(self)@.pools[i as int],
            final(self)@ == (PoolsView { pools: old(self)@.pools.remove(i as int), ..old(self)@ }),
    {
        let pool = self.pools.remove(i);
        proof {
            assert(final(self)@.pools =~= old(self)@.pools.remove(i as int));
        }
        pool
    }

    /// Puts `pool` into the list at `i`.
    fn put_pool(&mut self, i: usize, pool: BondedPool)
        requires
            i <= old(self)@.pools.len(),
        ensures
            final(self)@ == (PoolsView {
                pools: old(self)@.pools.insert(i as int, pool@),
                ..old(self)@
            }),
    {
        self.pools.insert(i, pool);
        proof {
            assert(final(self)@.pools =~= old(self)@.pools.insert(i as int, pool@));
        }
    }

    /// The account that holds the funds of the pool `pool_id`, as the runtime
    /// derives it from the identifier of the pallet and the pool.
    pub fn generate_bonded_account(&self, pool_id: u32) -> (account: u64)
        ensures
            account == self@.bonded_account_of(pool_id),
    {
        derive_sub_account(self.config.pallet_id, BONDED_ACCOUNT, pool_id)
    }

    /// `creator` opens a pool, bonds `amount` in it as its first member, and
    /// pays the existential deposit on top. The funds of the pool are held
    /// by the account that the runtime derives for it. Returns the identifier
    /// of the pool.
    ///
    /// Refused with `Overflow` if the pools cannot be numbered any further or
    /// an amount would leave the range of the balance type, and otherwise
    /// with `InsufficientBalance` if `creator` does not hold the bond and the
    /// deposit.
    pub fn create(&mut self, book: &mut Balances, creator: u64, amount: u128) -> (result: Result<
        u32,
        PoolError,
    >)
        requires
            old(self)@.wf(),
        ensures
            (final(self)@, final(book)@, result) == old(self)@.create(old(book)@, creator, amount),
            final(self)@.wf(),
    {
        if self.pools.len() >= u32::MAX as usize {
            return Err(PoolError::Overflow);
        }
        let account = self.generate_bonded_account((self.pools.len() + 1) as u32);
        self.create_at(book, creator, amount, account)
    }

    /// `creator` opens a pool whose funds are held by `account`, bonds
    /// `amount` in it as its first member, and pays the existential deposit
    /// on top. Returns the identifier of the pool.
    ///
    /// Refused with `Overflow` if the pools cannot be numbered any further or
    /// an amount would leave the range of the balance type, and otherwise
    /// with `InsufficientBalance` if `creator` does not hold the bond and the
    /// deposit.
    pub fn create_at(
        &mut self,
        book: &mut Balances,
        creator: u64,
        amount: u128,
        account: u64,
    ) -> (result: Result<u32, PoolError>)
        requires
            old(self)@.wf(),
        ensures
            (final(self)@, final(book)@, result) == old(self)@.create_at(
                old(book)@,
                creator,
                amount,
                account,
            ),
            final(self)@.wf(),
    {
        let ed = self.config.existential_deposit;
        if self.pools.len() >= u32::MAX as usize || amount > u128::MAX - ed
            || self.total_value_locked > u128::MAX - amount {
            return Err(PoolError::Overflow);
        }
        if !book.withdraw(creator, amount + ed) {
            return Err(PoolError::InsufficientBalance);
        }
        let mut members: Vec<PoolMember> = Vec::new();
        members.push(PoolMember { who: creator, points: amount, unbonding: Vec::new() });
        let pool = BondedPool {
            account,
            ledger: StakingLedger::new(amount),
            funds: amount + ed,
            members,
        };
        proof {
            assert(pool@.members =~= PoolView::opened(account, creator, amount, ed).members);
            lemma_opened_is_wf(account, creator, amount, ed, self.era);
            lemma_locked_sum_push(self@.pools, pool@);
        }
        let count = self.pools.len();
        self.put_pool(count, pool);
        self.total_value_locked = self.total_value_locked + amount;
        self.note(account, 0, Some(StakingEvent::Bonded { stash: account, amount }));
        let pool_id = (count + 1) as u32;
        self.report(PoolEvent::Created { depositor: creator, pool_id });
        self.report(PoolEvent::Bonded { member: creator, pool_id, bonded: amount, joined: true });
        proof {
            assert(old(self)@.pools.insert(count as int, pool@) =~= old(self)@.pools.push(pool@));
            assert(final(self)@.pool_events =~= old(self)@.pool_events + seq![
                PoolEvent::Created { depositor: creator, pool_id },
                PoolEvent::Bonded { member: creator, pool_id, bonded: amount, joined: true },
            ]);
        }
        Ok(pool_id)
    }

    /// `who` deposits `amount` in the pool `pool_id`, as a new member if
    /// `joining` and as a member of old if not.
    fn deposit(
        &mut self,
        book: &mut Balances,
        who: u64,
        amount: u128,
        pool_id: u32,
        joining: bool,
    ) -> (result: Result<(), PoolError>)
        requires
            old(self)@.wf(),
        ensures
            (final(self)@, final(book)@, result) == old(self)@.deposit(
                old(book)@,
                who,
                amount,
                pool_id,
                joining,
            ),
            final(self)@.wf(),
    {
        if pool_id == 0 || pool_id as usize > self.pools.len() {
            return Err(PoolError::PoolNotFound);
        }
        let i = (pool_id - 1) as usize;
        let era = self.era;
        let at = find_member(&self.pools[i].members, who);
        if joining && at.is_some() {
            return Err(PoolError::AccountBelongsToOtherPool);
        }
        if !joining && at.is_none() {
            return Err(PoolError::PoolMemberNotFound);
        }
        if book.free_balance(who) < amount {
            return Err(PoolError::InsufficientBalance);
        }
        proof {
            lemma_locked_sum_update(self@.pools, i as int, self@.pools[i as int]);
        }
        let withdrawable = self.pools[i].ledger.withdrawable(era);
        if amount > u128::MAX - self.pools[i].funds || amount > u128::MAX - (
        self.total_value_locked - withdrawable) {
            return Err(PoolError::Overflow);
        }
        proof {
            let at_view = member_position(self@.pools[i as int].members, who);
            lemma_deposited_keeps_wf(
                self@.pools[i as int],
                who,
                amount,
                self@.config.existential_deposit,
                era,
            );
            lemma_with_pool_keeps_wf(
                self@,
                i as int,
                self@.pools[i as int].deposited(at_view, who, amount, era),
                withdrawable as nat,
                amount as nat,
                Seq::empty(),
            );
            if let Some(j) = at_view {
                lemma_member_within_sum(self@.pools[i as int].members, j as int, Measure::Points);
            }
        }
        book.withdraw(who, amount);
        let mut pool = self.take_pool(i);
        let bonded = pool.ledger.bond_extra(amount, era);
        let withdrawn = match bonded {
            Ok(w) => w,
            Err(_) => 0,
        };
        pool.funds = pool.funds + amount;
        match at {
            Some(j) => {
                let mut member = pool.members.remove(j);
                member.points = member.points + amount;
                pool.members.insert(j, member);
                proof {
                    assert(pool@.members =~= old(self)@.pools[i as int].members_after_deposit(
                        Some(j as nat),
                        who,
                        amount,
                    ));
                }
            },
            None => {
                pool.members.push(PoolMember { who, points: amount, unbonding: Vec::new() });
                proof {
                    assert(pool@.members =~= old(self)@.pools[i as int].members_after_deposit(
                        None,
                        who,
                        amount,
                    ));
                }
            },
        }
        let account = pool.account;
        self.put_pool(i, pool);
        self.total_value_locked = self.total_value_locked - withdrawn + amount;
        self.note(account, withdrawn, Some(StakingEvent::Bonded { stash: account, amount }));
        self.report(PoolEvent::Bonded { member: who, pool_id, bonded: amount, joined: joining });
        proof {
            assert(old(self)@.pools.remove(i as int).insert(i as int, pool@)
                =~= old(self)@.pools.update(i as int, pool@));
            assert(final(self)@.pool_events =~= old(self)@.pool_events + seq![
                PoolEvent::Bonded { member: who, pool_id, bonded: amount, joined: joining },
            ]);
        }
        Ok(())
    }

    /// `who` joins the pool `pool_id` with `amount`, which moves from its
    /// balance to the pool's account and is bonded in the pool's ledger. The
    /// ledger is swept first; what the sweep withdraws leaves the running
    /// total, and the amount joins it.
    ///
    /// Refused with `PoolNotFound` if there is no such pool; otherwise with
    /// `AccountBelongsToOtherPool` if `who` is a member already; otherwise
    /// with `InsufficientBalance` if `who` does not hold `amount`; otherwise
    /// with `Overflow` if an amount would leave the range of the balance type.
    pub fn join(&mut self, book: &mut Balances, who: u64, amount: u128, pool_id: u32) -> (result:
        Result<(), PoolError>)
        requires
            old(self)@.wf(),
        ensures
            (final(self)@, final(book)@, result) == old(self)@.join(
                old(book)@,
                who,
                amount,
                pool_id,
            ),
            final(self)@.wf(),
    {
        self.deposit(book, who, amount, pool_id, true)
    }

    /// The member `who` of the pool `pool_id` bonds `amount` more. As `join`,
    /// but refused with `PoolMemberNotFound` if `who` is not a member.
    pub fn bond_extra(
        &mut self,
        book: &mut Balances,
        who: u64,
        amount: u128,
        pool_id: u32,
    ) -> (result: Result<(), PoolError>)
        requires
            old(self)@.wf(),
        ensures
            (final(self)@, final(book)@, result) == old(self)@.bond_extra(
                old(book)@,
                who,
                amount,
                pool_id,
            ),
            final(self)@.wf(),
    {
        self.deposit(book, who, amount, pool_id, false)
    }

    /// The member `who` of the pool `pool_id` unbonds `points`, or all its
    /// points if it has fewer: they move from the active bond of the pool's
    /// ledger into a new unlocking chunk, and the member gets an unbonding
    /// entry of the same value and era. The ledger is swept first, and what
    /// the sweep withdraws leaves the running total; the unbonding itself
    /// does not change it.
    ///
    /// Refused with `PoolNotFound` if there is no such pool; otherwise with
    /// `PoolMemberNotFound` if `who` is not a member; otherwise with
    /// `MaxUnbondingLimit` if the member can have no further entry; otherwise
    /// with what the ledger refuses, which is `NoMoreChunks` if no slot is
    /// free after the sweep.
    pub fn unbond(&mut self, who: u64, points: u128, pool_id: u32) -> (result: Result<
        (),
        PoolError,
    >)
        requires
            old(self)@.wf(),
        ensures
            (final(self)@, result) == old(self)@.unbond(who, points, pool_id),
            final(self)@.wf(),
    {
        if pool_id == 0 || pool_id as usize > self.pools.len() {
            return Err(PoolError::PoolNotFound);
        }
        let i = (pool_id - 1) as usize;
        let era = self.era;
        let j = match find_member(&self.pools[i].members, who) {
            None => {
                return Err(PoolError::PoolMemberNotFound);
            },
            Some(j) => j,
        };
        let held = self.pools[i].members[j].points;
        let value = if points <= held {
            points
        } else {
            held
        };
        if value > 0 && self.pools[i].members[j].unbonding.len()
            >= self.config.max_unbonding as usize {
            return Err(PoolError::MaxUnbondingLimit);
        }
        let rules = UnbondRules {
            min_active: 0,
            max_chunks: self.config.max_unlocking_chunks,
            bonding_duration: self.config.bonding_duration,
        };
        let mut pool = self.take_pool(i);
        let outcome = pool.ledger.unbond(value, era, &rules);
        match outcome {
            Err(e) => {
                self.put_pool(i, pool);
                proof {
                    assert(old(self)@.pools.remove(i as int).insert(i as int, pool@)
                        =~= old(self)@.pools);
                }
                Err(PoolError::Staking(e))
            },
            Ok(done) => {
                proof {
                    let before = old(self)@.pools[i as int];
                    lemma_unbonded_keeps_wf(
                        before,
                        j as int,
                        value as nat,
                        old(self)@.config.existential_deposit,
                        era,
                        rules,
                    );
                    lemma_with_pool_keeps_wf(
                        old(self)@,
                        i as int,
                        before.unbonded(
                            j as int,
                            value as nat,
                            era,
                            rules.bonding_duration,
                            before.ledger.unbond(value as nat, era, rules)->Ok_0,
                        ),
                        done.withdrawn as nat,
                        0,
                        Seq::empty(),
                    );
                }
                let mut member = pool.members.remove(j);
                member.points = member.points - value;
                if value > 0 {
                    member.unbonding.push(
                        UnlockChunk { value, era: era.saturating_add(rules.bonding_duration) },
                    );
                }
                pool.members.insert(j, member);
                proof {
                    let before = old(self)@.pools[i as int];
                    assert(pool@.members =~= before.unbonded(
                        j as int,
                        value as nat,
                        era,
                        rules.bonding_duration,
                        pool@.ledger,
                    ).members);
                }
                let account = pool.account;
                self.put_pool(i, pool);
                self.total_value_locked = self.total_value_locked - done.withdrawn;
                self.note(
                    account,
                    done.withdrawn,
                    if value > 0 {
                        Some(StakingEvent::Unbonded { stash: account, amount: value })
                    } else {
                        None
                    },
                );
                if value > 0 {
                    self.report(
                        PoolEvent::Unbonded {
                            member: who,
                            pool_id,
                            points: value,
                            era: era.saturating_add(rules.bonding_duration),
                        },
                    );
                }
                proof {
                    assert(old(self)@.pools.remove(i as int).insert(i as int, pool@)
                        =~= old(self)@.pools.update(i as int, pool@));
                    assert(final(self)@.pool_events =~= old(self)@.pool_events + if value > 0 {
                        seq![
                            PoolEvent::Unbonded {
                                member: who,
                                pool_id,
                                points: value,
                                era: unlock_era(era, rules.bonding_duration),
                            },
                        ]
                    } else {
                        Seq::empty()
                    });
                }
                Ok(())
            },
        }
    }

    /// The member `who` of the pool `pool_id` is paid what it has unbonded
    /// and has matured: the amount moves from the pool's account to its
    /// balance, and a member with nothing left in the pool leaves it. The
    /// pool's ledger is swept first, and what the sweep withdraws leaves the
    /// running total. Returns the amount paid.
    ///
    /// Refused with `PoolNotFound` if there is no such pool; otherwise with
    /// `PoolMemberNotFound` if `who` is not a member; otherwise with
    /// `CannotWithdrawAny` if nothing has matured for the member; otherwise
    /// with `Overflow` if the member's balance would leave the range of the
    /// balance type.
    pub fn withdraw_unbonded(&mut self, book: &mut Balances, who: u64, pool_id: u32) -> (result:
        Result<u128, PoolError>)
        requires
            old(self)@.wf(),
        ensures
            (final(self)@, final(book)@, result) == old(self)@.withdraw_unbonded(
                old(book)@,
                who,
                pool_id,
            ),
            final(self)@.wf(),
    {
        if pool_id == 0 || pool_id as usize > self.pools.len() {
            return Err(PoolError::PoolNotFound);
        }
        let i = (pool_id - 1) as usize;
        let era = self.era;
        let j = match find_member(&self.pools[i].members, who) {
            None => {
                return Err(PoolError::PoolMemberNotFound);
            },
            Some(j) => j,
        };
        proof {
            let before = self@.pools[i as int];
            lemma_paid_out_keeps_wf(before, j as int, self@.config.existential_deposit, era);
            lemma_with_pool_keeps_wf(
                self@,
                i as int,
                before.paid_out(j as int, era),
                before.ledger.withdrawable(era),
                0,
                Seq::empty(),
            );
        }
        let paid = matured_value(&self.pools[i].members[j].unbonding, era);
        if paid == 0 {
            return Err(PoolError::CannotWithdrawAny);
        }
        if !book.deposit(who, paid) {
            return Err(PoolError::Overflow);
        }
        let mut pool = self.take_pool(i);
        let withdrawn = pool.ledger.sweep(era);
        pool.funds = pool.funds - paid;
        let mut member = pool.members.remove(j);
        member.unbonding = pending_chunks(&member.unbonding, era);
        let leaves = member.points == 0 && member.unbonding.len() == 0;
        if !leaves {
            pool.members.insert(j, member);
        }
        proof {
            assert(pool@.members =~= old(self)@.pools[i as int].paid_out(j as int, era).members);
        }
        let account = pool.account;
        self.put_pool(i, pool);
        self.total_value_locked = self.total_value_locked - withdrawn;
        self.note(account, withdrawn, None);
        self.report(PoolEvent::Withdrawn { member: who, pool_id, balance: paid });
        if leaves {
            self.report(PoolEvent::MemberRemoved { pool_id, member: who });
        }
        proof {
            assert(old(self)@.pools.remove(i as int).insert(i as int, pool@)
                =~= old(self)@.pools.update(i as int, pool@));
            let paid_event = PoolEvent::Withdrawn { member: who, pool_id, balance: paid };
            assert(final(self)@.pool_events =~= old(self)@.pool_events + if leaves {
                seq![paid_event, PoolEvent::MemberRemoved { pool_id, member: who }]
            } else {
                seq![paid_event]
            });
        }
        Ok(paid)
    }

    /// Anyone has the ledger of the pool `pool_id` swept. What the sweep
    /// withdraws leaves the running total. Returns the value withdrawn.
    ///
    /// Refused with `PoolNotFound` if there is no such pool.
    pub fn pool_withdraw_unbonded(&mut self, pool_id: u32) -> (result: Result<u128, PoolError>)
        requires
            old(self)@.wf(),
        ensures
            (final(self)@, result) == old(self)@.pool_withdraw_unbonded(pool_id),
            final(self)@.wf(),
    {
        if pool_id == 0 || pool_id as usize > self.pools.len() {
            return Err(PoolError::PoolNotFound);
        }
        let i = (pool_id - 1) as usize;
        let era = self.era;
        proof {
            let before = self@.pools[i as int];
            lemma_swept_keeps_wf(before, self@.config.existential_deposit, era);
            lemma_with_pool_keeps_wf(
                self@,
                i as int,
                PoolView { ledger: before.ledger.swept(era), ..before },
                before.ledger.withdrawable(era),
                0,
                Seq::empty(),
            );
        }
        let mut pool = self.take_pool(i);
        let withdrawn = pool.ledger.sweep(era);
        let account = pool.account;
        self.put_pool(i, pool);
        self.total_value_locked = self.total_value_locked - withdrawn;
        self.note(account, withdrawn, None);
        proof {
            assert(old(self)@.pools.remove(i as int).insert(i as int, pool@)
                =~= old(self)@.pools.update(i as int, pool@));
        }
        Ok(withdrawn)
    }
}

/// A call that a member, or anyone, makes on the pools, or a report of the
/// clock.
pub enum PoolCall {
    Join { who: u64, amount: u128, pool_id: u32 },
    BondExtra { who: u64, amount: u128, pool_id: u32 },
    Unbond { who: u64, points: u128, pool_id: u32 },
    WithdrawUnbonded { who: u64, pool_id: u32 },
    PoolWithdrawUnbonded { pool_id: u32 },
    StartEra { era: u32 },
}

/// The pools and the balances after `call`. A call that is refused changes
/// nothing.
pub open spec fn after_call(pools: PoolsView, book: Map<u64, u128>, call: PoolCall) -> (
    PoolsView,
    Map<u64, u128>,
) {
    match call {
        PoolCall::Join { who, amount, pool_id } => {
            let (p, b, _r) = pools.join(book, who, amount, pool_id);
            (p, b)
        },
        PoolCall::BondExtra { who, amount, pool_id } => {
            let (p, b, _r) = pools.bond_extra(book, who, amount, pool_id);
            (p, b)
        },
        PoolCall::Unbond { who, points, pool_id } => (pools.unbond(who, points, pool_id).0, book),
        PoolCall::WithdrawUnbonded { who, pool_id } => {
            let (p, b, _r) = pools.withdraw_unbonded(book, who, pool_id);
            (p, b)
        },
        PoolCall::PoolWithdrawUnbonded { pool_id } => (
            pools.pool_withdraw_unbonded(pool_id).0,
            book,
        ),
        PoolCall::StartEra { era } => (pools.start_era(era), book),
    }
}

/// The pools and the balances after all of `calls`, in order.
pub open spec fn after_calls(pools: PoolsView, book: Map<u64, u128>, calls: Seq<PoolCall>) -> (
    PoolsView,
    Map<u64, u128>,
)
    decreases calls.len(),
{
    if calls.len() == 0 {
        (pools, book)
    } else {
        let (p, b) = after_calls(pools, book, calls.drop_last());
        after_call(p, b, calls.last())
    }
}

/// Replacing a pool exchanges what an account can claim from it in the sum
/// over all pools.
pub proof fn lemma_total_claim_update(pools: Seq<PoolView>, i: int, pool: PoolView, who: u64)
    requires
        0 <= i < pools.len(),
    ensures
        total_claim(pools.update(i, pool), who) + claim(pools[i], who) == total_claim(pools, who)
            + claim(pool, who),
    decreases pools.len(),
{
    if i == pools.len() - 1 {
        assert(pools.update(i, pool).drop_last() =~= pools.drop_last());
    } else {
        lemma_total_claim_update(pools.drop_last(), i, pool, who);
        assert(pools.update(i, pool).drop_last() =~= pools.drop_last().update(i, pool));
    }
}

/// The running total lies between what the members of the pools have bonded
/// and that plus what they have unbonded and not been paid. Where nothing is
/// unbonding, it is exactly what the members have bonded.
pub proof fn lemma_total_value_locked_is_members_stake(pools: PoolsView)
    requires
        pools.wf(),
    ensures
        members_stake(pools.pools) <= pools.total_value_locked,
        pools.total_value_locked <= members_stake(pools.pools) + members_unbonding(pools.pools),
        members_unbonding(pools.pools) == 0 ==> pools.total_value_locked == members_stake(
            pools.pools,
        ),
{
    lemma_locked_sum_bounds(pools.pools, pools.config.existential_deposit, pools.era);
}

/// The sum of the ledgers of pools whose books agree lies between what their
/// members have bonded and that plus what they have unbonded.
pub proof fn lemma_locked_sum_bounds(pools: Seq<PoolView>, existential_deposit: u128, era: u32)
    requires
        forall|i: int| 0 <= i < pools.len() ==> (#[trigger] pools[i]).wf(existential_deposit, era),
    ensures
        members_stake(pools) <= locked_sum(pools),
        locked_sum(pools) <= members_stake(pools) + members_unbonding(pools),
    decreases pools.len(),
{
    if pools.len() > 0 {
        let init = pools.drop_last();
        lemma_locked_sum_bounds(init, existential_deposit, era);
    }
}

/// A report of the clock keeps the books of every pool in agreement.
pub proof fn lemma_start_era_keeps_wf(pools: PoolsView, era: u32)
    requires
        pools.wf(),
    ensures
        pools.start_era(era).wf(),
{
    let after = pools.start_era(era);
}

/// One call keeps the books in agreement and conserves what every account is
/// worth: its free balance and what it can claim from the pools add up to the
/// same before and after.
pub proof fn lemma_call_conserves(pools: PoolsView, book: Map<u64, u128>, call: PoolCall, x: u64)
    requires
        pools.wf(),
    ensures
        after_call(pools, book, call).0.wf(),
        free(after_call(pools, book, call).1, x) + total_claim(
            after_call(pools, book, call).0.pools,
            x,
        ) == free(book, x) + total_claim(pools.pools, x),
{
    let ed = pools.config.existential_deposit;
    let era = pools.era;
    let after = after_call(pools, book, call).0;
    match call {
        PoolCall::Join { who, amount, pool_id } => {
            lemma_deposit_conserves(pools, book, who, amount, pool_id, true, x);
        },
        PoolCall::BondExtra { who, amount, pool_id } => {
            lemma_deposit_conserves(pools, book, who, amount, pool_id, false, x);
        },
        PoolCall::Unbond { who, points, pool_id } => {
            if pools.unbond(who, points, pool_id).1 is Ok {
                let i = pool_id - 1;
                let pool = pools.pools[i];
                lemma_member_position(pool.members, who);
                let j = member_position(pool.members, who)->Some_0 as int;
                let m = pool.members[j];
                let value = if points <= m.points {
                    points as nat
                } else {
                    m.points
                };
                lemma_unbonded_keeps_wf(pool, j, value, ed, era, pools.rules());
                let ledger = pool.ledger.unbond(value, era, pools.rules())->Ok_0;
                let next = pool.unbonded(j, value, era, pools.config.bonding_duration, ledger);
                lemma_with_pool_keeps_wf(
                    pools,
                    i,
                    next,
                    pool.ledger.withdrawable(era),
                    0,
                    after.events.subrange(pools.events.len() as int, after.events.len() as int),
                );
                lemma_sum_over_update(pool.members, j, next.members[j], Measure::ClaimOf(x));
                if value > 0 {
                    lemma_sum_push(
                        m.unbonding,
                        UnlockChunk {
                            value: value as u128,
                            era: unlock_era(era, pools.config.bonding_duration),
                        },
                    );
                }
                lemma_total_claim_update(pools.pools, i, next, x);
            }
        },
        PoolCall::WithdrawUnbonded { who, pool_id } => {
            if pools.withdraw_unbonded(book, who, pool_id).2 is Ok {
                let i = pool_id - 1;
                let pool = pools.pools[i];
                lemma_member_position(pool.members, who);
                let j = member_position(pool.members, who)->Some_0 as int;
                let m = pool.members[j];
                lemma_paid_out_keeps_wf(pool, j, ed, era);
                let next = pool.paid_out(j, era);
                lemma_with_pool_keeps_wf(
                    pools,
                    i,
                    next,
                    pool.ledger.withdrawable(era),
                    0,
                    after.events.subrange(pools.events.len() as int, after.events.len() as int),
                );
                lemma_value_split(m.unbonding, era as int);
                let left = pending(m.unbonding, era as int);
                if m.points == 0 && left.len() == 0 {
                    lemma_sum_over_remove(pool.members, j, Measure::ClaimOf(x));
                } else {
                    lemma_sum_over_update(pool.members, j, next.members[j], Measure::ClaimOf(x));
                }
                lemma_total_claim_update(pools.pools, i, next, x);
            }
        },
        PoolCall::PoolWithdrawUnbonded { pool_id } => {
            if pools.has_pool(pool_id) {
                let i = pool_id - 1;
                let pool = pools.pools[i];
                lemma_swept_keeps_wf(pool, ed, era);
                let next = PoolView { ledger: pool.ledger.swept(era), ..pool };
                lemma_with_pool_keeps_wf(
                    pools,
                    i,
                    next,
                    pool.ledger.withdrawable(era),
                    0,
                    after.events.subrange(pools.events.len() as int, after.events.len() as int),
                );
                lemma_total_claim_update(pools.pools, i, next, x);
            }
        },
        PoolCall::StartEra { era } => {
            lemma_start_era_keeps_wf(pools, era);
        },
    }
}

/// A deposit keeps the books in agreement and conserves what every account is
/// worth.
pub proof fn lemma_deposit_conserves(
    pools: PoolsView,
    book: Map<u64, u128>,
    who: u64,
    amount: u128,
    pool_id: u32,
    joining: bool,
    x: u64,
)
    requires
        pools.wf(),
    ensures
        pools.deposit(book, who, amount, pool_id, joining).0.wf(),
        free(pools.deposit(book, who, amount, pool_id, joining).1, x) + total_claim(
            pools.deposit(book, who, amount, pool_id, joining).0.pools,
            x,
        ) == free(book, x) + total_claim(pools.pools, x),
{
    let (after, _book, result) = pools.deposit(book, who, amount, pool_id, joining);
    if result is Ok {
        let ed = pools.config.existential_deposit;
        let era = pools.era;
        let i = pool_id - 1;
        let pool = pools.pools[i];
        lemma_locked_sum_update(pools.pools, i, pool);
        lemma_member_position(pool.members, who);
        let at = member_position(pool.members, who);
        lemma_sweep_keeps_wf(pool.ledger, era);
        lemma_deposited_keeps_wf(pool, who, amount, ed, era);
        let next = pool.deposited(at, who, amount, era);
        lemma_with_pool_keeps_wf(
            pools,
            i,
            next,
            pool.ledger.withdrawable(era),
            amount as nat,
            after.events.subrange(pools.events.len() as int, after.events.len() as int),
        );
        match at {
            Some(j) => {
                lemma_sum_over_update(
                    pool.members,
                    j as int,
                    next.members[j as int],
                    Measure::ClaimOf(x),
                );
            },
            None => {
                lemma_sum_over_push(
                    pool.members,
                    MemberView { who, points: amount as nat, unbonding: Seq::empty() },
                    Measure::ClaimOf(x),
                );
            },
        }
        lemma_total_claim_update(pools.pools, i, next, x);
    }
}

/// Whatever the members of the pools and the clock do, in whatever order, the
/// books stay in agreement and every account stays worth the same. So:
///
/// - an account that could claim nothing before and can claim nothing after,
///   having joined and fully left in between, holds the balance it held
///   before;
/// - if nothing is unbonding before and after, and the members have bonded
///   the same in all, the running total is what it was, however many sweeps,
///   asked for or not, took value out of the ledgers in between.
pub proof fn lemma_full_exit_restores(
    pools: PoolsView,
    book: Map<u64, u128>,
    calls: Seq<PoolCall>,
    who: u64,
)
    requires
        pools.wf(),
    ensures
        after_calls(pools, book, calls).0.wf(),
        free(after_calls(pools, book, calls).1, who) + total_claim(
            after_calls(pools, book, calls).0.pools,
            who,
        ) == free(book, who) + total_claim(pools.pools, who),
        total_claim(pools.pools, who) == 0 && total_claim(
            after_calls(pools, book, calls).0.pools,
            who,
        ) == 0 ==> free(after_calls(pools, book, calls).1, who) == free(book, who),
        members_unbonding(pools.pools) == 0 && members_unbonding(
            after_calls(pools, book, calls).0.pools,
        ) == 0 && members_stake(after_calls(pools, book, calls).0.pools) == members_stake(
            pools.pools,
        ) ==> after_calls(pools, book, calls).0.total_value_locked == pools.total_value_locked,
    decreases calls.len(),
{
    if calls.len() > 0 {
        lemma_full_exit_restores(pools, book, calls.drop_last(), who);
        let (p, b) = after_calls(pools, book, calls.drop_last());
        lemma_call_conserves(p, b, calls.last(), who);
    }
    lemma_total_value_locked_is_members_stake(pools);
    lemma_total_value_locked_is_members_stake(after_calls(pools, book, calls).0);
}

} // verus!
