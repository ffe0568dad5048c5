//! When the control loop scans and refreshes: two repeating timers, each of
//! which a request can cut short. Times are milliseconds on a monotonic
//! clock that the caller reads.

use crate::daemon::Wakeup;
use vstd::prelude::*;

verus! {

/// `now + every`, held at the largest `u64`.
pub open spec fn later(now: u64, every: u64) -> u64 {
    if now + every > u64::MAX {
        u64::MAX
    } else {
        (now + every) as u64
    }
}

pub struct Schedule {
    pub scan_every: u64,
    pub refresh_every: u64,
    pub next_scan: u64,
    pub next_refresh: u64,
}

/// Which timers have run out.
#[derive(Debug, PartialEq, Eq, Structural, Clone, Copy)]
pub struct Due {
    pub scan: bool,
    pub refresh: bool,
}

impl Schedule {
    /// Both timers start out run out, so the loop scans and picks at once.
    pub fn new(scan_every: u64, refresh_every: u64, now: u64) -> (r: Schedule)
        ensures
            r.scan_every == scan_every,
            r.refresh_every == refresh_every,
            r.next_scan == now,
            r.next_refresh == now,
    {
        Schedule { scan_every, refresh_every, next_scan: now, next_refresh: now }
    }

    /// Reports the timers that have run out at `now` and restarts them.
    pub fn poll(&mut self, now: u64) -> (r: Due)
        ensures
            r.scan == (now >= old(self).next_scan),
            r.refresh == (now >= old(self).next_refresh),
            final(self).scan_every == old(self).scan_every,
            final(self).refresh_every == old(self).refresh_every,
            final(self).next_scan == if r.scan {
                later(now, old(self).scan_every)
            } else {
                old(self).next_scan
            },
            final(self).next_refresh == if r.refresh {
                later(now, old(self).refresh_every)
            } else {
                old(self).next_refresh
            },
    {
        let scan = now >= self.next_scan;
        let refresh = now >= self.next_refresh;
        if scan {
            self.next_scan = now.saturating_add(self.scan_every);
        }
        if refresh {
            self.next_refresh = now.saturating_add(self.refresh_every);
        }
        Due { scan, refresh }
    }

    /// A request cuts the matching timer short.
    pub fn wake(&mut self, w: Wakeup, now: u64)
        ensures
            final(self).scan_every == old(self).scan_every,
            final(self).refresh_every == old(self).refresh_every,
            final(self).next_scan == if w == Wakeup::Rescan {
                now
            } else {
                old(self).next_scan
            },
            final(self).next_refresh == if w == Wakeup::Refresh {
                now
            } else {
                old(self).next_refresh
            },
    {
        match w {
            Wakeup::Rescan => self.next_scan = now,
            Wakeup::Refresh => self.next_refresh = now,
            Wakeup::Nothing => {},
        }
    }

    /// How long the loop may wait for a request before a timer runs out.
    pub fn wait(&self, now: u64) -> (r: u64)
        ensures
            r == if self.next_scan <= now || self.next_refresh <= now {
                0
            } else if self.next_scan < self.next_refresh {
                (self.next_scan - now) as u64
            } else {
                (self.next_refresh - now) as u64
            },
    {
        if self.next_scan <= now || self.next_refresh <= now {
            0
        } else if self.next_scan < self.next_refresh {
            self.next_scan - now
        } else {
            self.next_refresh - now
        }
    }
}

} // verus!
