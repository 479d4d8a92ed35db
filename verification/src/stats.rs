//! Running averages of how long the world tick takes, over eight windows
//! of one second up to ten minutes.

use vstd::prelude::*;
use crate::commands::{ticks_per_second, tps};
use crate::console::Stats;
use crate::constants::TICKS_PER_SECOND;

verus! {

/// The length in seconds of the window with the index `i`.
pub open spec fn window_seconds(i: int) -> int {
    if i == 0 {
        1
    } else if i == 1 {
        5
    } else if i == 2 {
        10
    } else if i == 3 {
        30
    } else if i == 4 {
        60
    } else if i == 5 {
        120
    } else if i == 6 {
        300
    } else {
        600
    }
}

/// The average of `count + 1` ticks, when the first `count` of them took
/// `average` nanoseconds on average and the last took `last`.
pub open spec fn averaged(average: u64, count: u64, last: u64) -> u64 {
    ((average * count + last) / (count + 1)) as u64
}

/// The tick times the server keeps: for each window the average of the
/// window that closed last, and the average and the number of the ticks of
/// the open one.
#[derive(Clone, Copy, Debug)]
pub struct TickStats {
    /// Seconds since the server started.
    pub uptime: u64,
    /// For each window, the average over the window that closed last.
    pub saved: [u64; 8],
    /// For each window, the average over the open window so far.
    pub current: [u64; 8],
    /// For each window, the number of ticks in the open window so far.
    pub count: [u64; 8],
}

impl TickStats {
    /// Tick times with nothing recorded.
    pub fn new() -> (s: TickStats)
        ensures
            s.uptime == 0,
            forall|i: int| 0 <= i < 8 ==> s.saved@[i] == 0 && s.current@[i] == 0 && s.count@[i] == 0,
    {
        TickStats { uptime: 0, saved: [0;8], current: [0;8], count: [0;8] }
    }

    /// Records a world tick that took `last` nanoseconds: it goes into the
    /// average of every open window.
    pub fn record(&mut self, last: u64)
        requires
            forall|i: int| 0 <= i < 8 ==> old(self).count@[i] < u64::MAX,
        ensures
            final(self).uptime == old(self).uptime,
            final(self).saved == old(self).saved,
            forall|i: int|
                0 <= i < 8 ==> final(self).current@[i] == averaged(
                    old(self).current@[i],
                    old(self).count@[i],
                    last,
                ) && final(self).count@[i] == old(self).count@[i] + 1,
    {
        let mut i: usize = 0;
        while i < 8
            invariant
                0 <= i <= 8,
                self.uptime == old(self).uptime,
                self.saved == old(self).saved,
                forall|k: int| 0 <= k < 8 ==> old(self).count@[k] < u64::MAX,
                forall|k: int|
                    0 <= k < i ==> self.current@[k] == averaged(
                        old(self).current@[k],
                        old(self).count@[k],
                        last,
                    ) && self.count@[k] == old(self).count@[k] + 1,
                forall|k: int|
                    i <= k < 8 ==> self.current@[k] == old(self).current@[k] && self.count@[k]
                        == old(self).count@[k],
            decreases 8 - i,
        {
            let average: u128 = self.current[i] as u128;
            let count: u128 = self.count[i] as u128;
            assert(average * count <= 0xffff_ffff_ffff_ffff * 0xffff_ffff_ffff_ffff)
                by (nonlinear_arith)
                requires
                    0 <= average <= 0xffff_ffff_ffff_ffff,
                    0 <= count <= 0xffff_ffff_ffff_ffff,
            ;
            let total: u128 = average * count + (last as u128);
            let mean: u128 = total / (count + 1);
            assert(mean <= 0xffff_ffff_ffff_ffff) by (nonlinear_arith)
                requires
                    mean == (average * count + last) / (count + 1),
                    0 <= average <= 0xffff_ffff_ffff_ffff,
                    0 <= last <= 0xffff_ffff_ffff_ffff,
                    0 <= count,
            ;
            self.current[i] = mean as u64;
            self.count[i] = self.count[i] + 1;
            i = i + 1;
        }
    }

    /// Notes that a second has passed: every window whose length divides
    /// the uptime closes, its average is kept and a new window opens.
    pub fn second_passed(&mut self)
        requires
            old(self).uptime < u64::MAX,
        ensures
            final(self).uptime == old(self).uptime + 1,
            forall|i: int|
                0 <= i < 8 ==> if final(self).uptime as int % window_seconds(i) == 0 {
                    final(self).saved@[i] == old(self).current@[i] && final(self).current@[i] == 0
                        && final(self).count@[i] == 0
                } else {
                    final(self).saved@[i] == old(self).saved@[i] && final(self).current@[i]
                        == old(self).current@[i] && final(self).count@[i] == old(self).count@[i]
                },
    {
        self.uptime = self.uptime + 1;
        let windows: [u64; 8] = [1, 5, 10, 30, 60, 120, 300, 600];
        let mut i: usize = 0;
        while i < 8
            invariant
                0 <= i <= 8,
                self.uptime == old(self).uptime + 1,
                windows@.len() == 8,
                forall|k: int| 0 <= k < 8 ==> windows@[k] == window_seconds(k),
                forall|k: int|
                    0 <= k < i ==> if self.uptime as int % window_seconds(k) == 0 {
                        self.saved@[k] == old(self).current@[k] && self.current@[k] == 0
                            && self.count@[k] == 0
                    } else {
                        self.saved@[k] == old(self).saved@[k] && self.current@[k] == old(self).current@[k] && self.count@[k] == old(self).count@[k]
                    },
                forall|k: int|
                    i <= k < 8 ==> self.saved@[k] == old(self).saved@[k] && self.current@[k]
                        == old(self).current@[k] && self.count@[k] == old(self).count@[k],
            decreases 8 - i,
        {
            assert(windows@[i as int] == window_seconds(i as int));
            if self.uptime % windows[i] == 0 {
                self.saved[i] = self.current[i];
                self.current[i] = 0;
                self.count[i] = 0;
            }
            i = i + 1;
        }
    }

    /// The figures for the console when `players` players are online: the
    /// uptime, the ticks per second and the nanoseconds per tick over the
    /// second that closed last.
    pub fn figures(&self, players: usize) -> (s: Stats)
        ensures
            s == (Stats {
                uptime: self.uptime,
                tps: ticks_per_second(self.saved@[0], TICKS_PER_SECOND),
                mspt: self.saved@[0],
                players,
            }),
    {
        Stats {
            uptime: self.uptime,
            tps: tps(self.saved[0], TICKS_PER_SECOND),
            mspt: self.saved[0],
            players,
        }
    }
}

} // verus!
