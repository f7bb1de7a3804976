//! Election phases, staking ledgers, validator disabling and pooled stake for
//! a proof-of-stake chain, with the invariants that keep them in step.
//!
//! - [`ledger`]: the staking ledger of one account and its transitions.
//! - [`staking`]: the ledger store, with the role of each account.
//! - [`disabling`]: which offenders are disabled, and when an era is forced.
//! - [`election`] and [`score`]: the phases of an election, the results that
//!   are accepted on the way, and how results are ranked.
//! - [`clock`]: blocks, sessions and eras.
//! - [`pools`] and [`balances`]: pooled stake, the running total of what the
//!   pools have locked, and the balances that members pay from.
//! - [`chain`]: all of these, moved on together block by block.
//! - [`perbill`]: fractions in parts per billion.
//!
//! Every type has a mathematical view, every operation is stated as a
//! function on views, and what holds of all states and all calls is proved
//! as a lemma beside the operations it speaks of.

pub mod balances;
pub mod chain;
pub mod clock;
pub mod disabling;
pub mod election;
pub mod ledger;
pub mod perbill;
pub mod pools;
pub mod score;
pub mod staking;
