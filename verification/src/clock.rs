//! The era and session clock: which block ends a session, which session ends
//! an era, and when the window of the next election opens.
//!
//! The clock decides when an era is due to end. Whether it does end is for the
//! election to say: the clock is told at the end of each session whether the
//! era rotated.

use crate::disabling::Forcing;
use vstd::prelude::*;

verus! {

/// The lengths that the clock counts.
#[derive(Clone, Copy, Debug, PartialEq, Eq, Structural)]
pub struct ClockConfig {
    /// Blocks in a session. With zero, no session ever ends.
    pub period: u32,
    /// Sessions in an era.
    pub sessions_per_era: u32,
    /// How many blocks before the end of the era the election may open.
    pub election_lead: u32,
}

/// What the clock says of one block.
#[derive(Clone, Copy, Debug, PartialEq, Eq, Structural)]
pub struct BlockSignal {
    /// The session ends with this block.
    pub session_end: bool,
    /// The era is due to end with this block.
    pub era_boundary: bool,
    /// The era is to end within the election lead: an election that is not
    /// under way may open.
    pub opens_election: bool,
}

/// The mathematical content of the clock.
pub struct ClockView {
    pub config: ClockConfig,
    pub block: u32,
    pub session: u32,
    pub active_era: u32,
    /// The session with which the active era began.
    pub era_start_session: u32,
}

impl ClockView {
    /// The clock before the first block.
    pub open spec fn initial(config: ClockConfig) -> ClockView {
        ClockView { config, block: 0, session: 0, active_era: 0, era_start_session: 0 }
    }

    /// The block with which the active era is scheduled to end.
    pub open spec fn scheduled_end(self) -> int {
        (self.era_start_session + self.config.sessions_per_era) * self.config.period
    }

    /// Whether block `block` ends a session.
    pub open spec fn ends_session(self, block: u32) -> bool {
        self.config.period > 0 && block % self.config.period == 0
    }

    /// Whether the era is due to end with the session that is running: always
    /// when a new era is forced, never when eras are held, and otherwise once
    /// the era has had its sessions.
    pub open spec fn rotation_due(self, forcing: Forcing) -> bool {
        match forcing {
            Forcing::ForceNew => true,
            Forcing::ForceNone => false,
            Forcing::NotForcing => self.session + 1 >= self.era_start_session
                + self.config.sessions_per_era,
        }
    }

    /// How many blocks after block `block` the era is to end: with the
    /// running session if the era is due, with its scheduled end if not, and
    /// never while eras are held or no session ends.
    pub open spec fn until_boundary(self, block: u32, forcing: Forcing) -> Option<int> {
        if self.config.period == 0 || forcing == Forcing::ForceNone {
            None
        } else if self.rotation_due(forcing) {
            Some(self.config.period - 1 - (block - 1) % (self.config.period as int))
        } else {
            Some(self.scheduled_end() - block)
        }
    }

    /// What the clock says of block `block`.
    pub open spec fn signal(self, block: u32, forcing: Forcing) -> BlockSignal {
        BlockSignal {
            session_end: self.ends_session(block),
            era_boundary: self.ends_session(block) && self.rotation_due(forcing),
            opens_election: self.until_boundary(block, forcing) matches Some(left) && 0 < left
                <= self.config.election_lead,
        }
    }

    /// The clock one block on. At the last block that can be numbered the
    /// clock stands still.
    pub open spec fn ticked(self) -> ClockView {
        if self.block == u32::MAX {
            self
        } else {
            ClockView { block: (self.block + 1) as u32, ..self }
        }
    }

    /// The clock after the running session has ended, with or without a new
    /// era.
    pub open spec fn session_ended(self, rotated: bool) -> ClockView {
        let session = if self.session == u32::MAX {
            self.session
        } else {
            (self.session + 1) as u32
        };
        if rotated {
            ClockView {
                session,
                active_era: if self.active_era == u32::MAX {
                    self.active_era
                } else {
                    (self.active_era + 1) as u32
                },
                era_start_session: session,
                ..self
            }
        } else {
            ClockView { session, ..self }
        }
    }
}

/// The clock of one chain.
pub struct EraClock {
    config: ClockConfig,
    block: u32,
    session: u32,
    active_era: u32,
    era_start_session: u32,
}

impl View for EraClock {
    type V = ClockView;

    closed spec fn view(&self) -> ClockView {
        ClockView {
            config: self.config,
            block: self.block,
            session: self.session,
            active_era: self.active_era,
            era_start_session: self.era_start_session,
        }
    }
}

impl EraClock {
    /// A clock before the first block, in session 0 of era 0.
    pub fn new(config: ClockConfig) -> (clock: Self)
        ensures
            clock@ == ClockView::initial(config),
    {
        EraClock { config, block: 0, session: 0, active_era: 0, era_start_session: 0 }
    }

    /// The number of the current block.
    pub fn block_number(&self) -> (block: u32)
        ensures
            block == self@.block,
    {
        self.block
    }

    /// The index of the current session.
    pub fn current_index(&self) -> (session: u32)
        ensures
            session == self@.session,
    {
        self.session
    }

    /// The index of the active era.
    pub fn active_era(&self) -> (era: u32)
        ensures
            era == self@.active_era,
    {
        self.active_era
    }

    /// Moves to the next block and says what it brings; at the last block that
    /// can be numbered, stays and says that nothing happens.
    pub fn tick(&mut self, forcing: Forcing) -> (signal: BlockSignal)
        ensures
            final(self)@ == old(self)@.ticked(),
            signal == if old(self)@.block == u32::MAX {
                BlockSignal { session_end: false, era_boundary: false, opens_election: false }
            } else {
                old(self)@.signal(final(self)@.block, forcing)
            },
    {
        if self.block == u32::MAX {
            return BlockSignal { session_end: false, era_boundary: false, opens_election: false };
        }
        self.block = self.block + 1;
        let session_end = self.config.period > 0 && self.block % self.config.period == 0;
        let rotation_due = match forcing {
            Forcing::ForceNew => true,
            Forcing::ForceNone => false,
            Forcing::NotForcing => self.session as u64 + 1 >= self.era_start_session as u64
                + self.config.sessions_per_era as u64,
        };
        proof {
            assert((self.era_start_session + self.config.sessions_per_era) * self.config.period
                <= 0x2_0000_0000 * 0x1_0000_0000) by (nonlinear_arith)
                requires
                    self.era_start_session + self.config.sessions_per_era <= 0x2_0000_0000,
                    self.config.period <= 0x1_0000_0000,
            ;
        }
        let until_boundary: Option<u128> = if self.config.period == 0 {
            None
        } else {
            match forcing {
                Forcing::ForceNone => None,
                _ => if rotation_due {
                    Some((self.config.period - 1 - (self.block - 1) % self.config.period) as u128)
                } else {
                    let scheduled_end = (self.era_start_session as u128
                        + self.config.sessions_per_era as u128) * (self.config.period as u128);
                    if scheduled_end >= self.block as u128 {
                        Some(scheduled_end - self.block as u128)
                    } else {
                        None
                    }
                },
            }
        };
        BlockSignal {
            session_end,
            era_boundary: session_end && rotation_due,
            opens_election: match until_boundary {
                Some(left) => 0 < left && left <= self.config.election_lead as u128,
                None => false,
            },
        }
    }

    /// Ends the running session. `rotated` says whether the election gave the
    /// next era its validators: if so the next era begins with the next
    /// session, and if not the era goes on.
    pub fn end_session(&mut self, rotated: bool)
        ensures
            final(self)@ == old(self)@.session_ended(rotated),
    {
        if self.session < u32::MAX {
            self.session = self.session + 1;
        }
        if rotated {
            if self.active_era < u32::MAX {
                self.active_era = self.active_era + 1;
            }
            self.era_start_session = self.session;
        }
    }
}

} // verus!
