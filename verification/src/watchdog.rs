//! Deciding when the game has stopped responding.
//!
//! A thread of the host's asks Windows every second whether the game's window
//! has gone unresponsive; when it has for several checks in a row, a dump of
//! the process is written beside the game, once. Windows already needs five
//! seconds of silence before it calls a window hung, and the further checks
//! ride out a long loading screen on top of that. The asking and the dump are
//! the host's; this module counts.

use vstd::prelude::*;

verus! {

/// Consecutive hung checks before acting.
pub const CONFIRMATIONS: u32 = 3;

/// Seconds between checks.
pub const CHECK_INTERVAL_SECS: u64 = 1;

/// What one check found.
#[derive(Clone, Copy, Debug, PartialEq, Eq, Structural)]
pub enum Check {
    /// The game has no visible window yet, or any more.
    NoWindow,
    Responsive,
    Hung,
}

pub struct Watchdog {
    strikes: u32,
    dumped: bool,
}

/// Whether `after` and `r` are what taking in `found` at `before` gives.
pub open spec fn checked(before: Watchdog, found: Check, after: Watchdog, r: bool) -> bool {
    &&& after.strikes_of() == match found {
        Check::NoWindow => before.strikes_of(),
        Check::Responsive => 0,
        Check::Hung => if before.strikes_of() < u32::MAX {
            (before.strikes_of() + 1) as u32
        } else {
            before.strikes_of()
        },
    }
    &&& r == (found == Check::Hung && after.strikes_of() >= CONFIRMATIONS && !before.dumped_of())
    &&& after.dumped_of() == (before.dumped_of() || r)
}

impl Watchdog {
    pub closed spec fn strikes_of(&self) -> u32 {
        self.strikes
    }

    pub closed spec fn dumped_of(&self) -> bool {
        self.dumped
    }

    pub fn new() -> (r: Watchdog)
        ensures
            r.strikes_of() == 0,
            !r.dumped_of(),
    {
        Watchdog { strikes: 0, dumped: false }
    }

    /// Takes in one check, and says whether to write the dump now: on the
    /// third hung check in a row, and only the first time.
    pub fn check(&mut self, found: Check) -> (r: bool)
        ensures
            checked(*old(self), found, *final(self), r),
    {
        match found {
            Check::NoWindow => false,
            Check::Responsive => {
                self.strikes = 0;
                false
            },
            Check::Hung => {
                if self.strikes < u32::MAX {
                    self.strikes = self.strikes + 1;
                }
                if self.strikes < CONFIRMATIONS || self.dumped {
                    return false;
                }
                self.dumped = true;
                true
            },
        }
    }
}

/// One dump per process: once a check has asked for the dump, no later
/// check does.
pub proof fn law_one_dump(before: Watchdog, found: Check, after: Watchdog, r: bool)
    requires
        before.dumped_of(),
        checked(before, found, after, r),
    ensures
        !r,
        after.dumped_of(),
{
}

/// From a fresh start, three hung checks in a row ask for the dump on the
/// third and not before.
pub proof fn law_third_hung_check_dumps(
    w0: Watchdog,
    w1: Watchdog,
    w2: Watchdog,
    w3: Watchdog,
    r1: bool,
    r2: bool,
    r3: bool,
)
    requires
        w0.strikes_of() == 0,
        !w0.dumped_of(),
        checked(w0, Check::Hung, w1, r1),
        checked(w1, Check::Hung, w2, r2),
        checked(w2, Check::Hung, w3, r3),
    ensures
        !r1,
        !r2,
        r3,
{
}

/// A responsive check starts the count over: the hung checks that ask for a
/// dump are consecutive.
pub proof fn law_responsive_resets(before: Watchdog, after: Watchdog, r: bool)
    requires
        checked(before, Check::Responsive, after, r),
    ensures
        !r,
        after.strikes_of() == 0,
{
}

/// How long ago the input thread last ran, in the host's milliseconds;
/// `None` when it never did. A beat stamped after `now`, which a clock read
/// twice can give, counts as just now.
pub fn since_beat(beat: u64, now: u64) -> (r: Option<u64>)
    ensures
        r == if beat == 0 {
            None
        } else if now >= beat {
            Some((now - beat) as u64)
        } else {
            Some(0u64)
        },
{
    if beat == 0 {
        None
    } else {
        Some(now.saturating_sub(beat))
    }
}

} // verus!
