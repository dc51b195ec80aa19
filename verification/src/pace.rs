//! The pacemaker: smooths per-tick sleeping so the observed cadence
//! converges to a target rate. All times are integer microseconds; the
//! embedding program supplies the clock readings and performs the sleep.

use vstd::prelude::*;

verus! {

/// Sum of the samples.
pub open spec fn spec_sum(s: Seq<u64>) -> int
    decreases s.len(),
{
    if s.len() == 0 {
        0
    } else {
        spec_sum(s.drop_last()) + s.last()
    }
}

/// The window's average, zero while empty.
pub open spec fn spec_average(s: Seq<u64>) -> int {
    if s.len() == 0 {
        0
    } else {
        spec_sum(s) / s.len() as int
    }
}

/// The planned sleep: whatever of the target interval the average workload
/// leaves over.
pub open spec fn spec_sleep(target: int, window: Seq<u64>) -> int {
    if target > spec_average(window) {
        target - spec_average(window)
    } else {
        0
    }
}

proof fn lemma_sum_constant(s: Seq<u64>, w: u64)
    requires
        forall|i: int| 0 <= i < s.len() ==> s[i] == w,
    ensures
        spec_sum(s) == s.len() * w,
    decreases s.len(),
{
    if s.len() == 0 {
    } else {
        lemma_sum_constant(s.drop_last(), w);
        assert((s.len() - 1) * w + w == s.len() * w) by (nonlinear_arith);
    }
}

/// Pacemaker bound: as soon as the moving window holds only the constant
/// workload duration `w` — which takes at most the window's width of ticks,
/// ten — the planned sleep is exactly the target interval less `w`, so the
/// tick cadence settles on the target.
pub proof fn lemma_pacemaker_converges(target: int, window: Seq<u64>, w: u64)
    requires
        window.len() >= 1,
        forall|i: int| 0 <= i < window.len() ==> window[i] == w,
        w < target,
    ensures
        spec_sleep(target, window) == target - w,
{
    lemma_sum_constant(window, w);
    let n = window.len() as int;
    assert(spec_sum(window) / n == w) by {
        vstd::arithmetic::div_mod::lemma_div_multiples_vanish(w as int, n);
    }
}

/// How the window absorbs one sample: grow up to ten entries, then
/// overwrite round-robin, oldest first.
pub open spec fn spec_record(window: Seq<u64>, pos: int, sample: u64) -> (Seq<u64>, int) {
    if window.len() < 10 {
        (window.push(sample), if pos + 1 == 10 {
            0int
        } else {
            pos + 1
        })
    } else {
        (window.update(pos, sample), if pos + 1 == 10 {
            0int
        } else {
            pos + 1
        })
    }
}

/// Holds the analysis loop at a target rate by planning per-tick sleeps
/// from a ten-wide moving average of workload durations.
pub struct RealtimePacemaker {
    /// The tick interval the loop should settle on.
    pub target_interval_us: u64,
    /// When the last tick completed.
    pub last_tick_us: Option<u64>,
    /// The most recent workload durations, at most ten.
    pub window: Vec<u64>,
    /// The slot the next sample overwrites once the window is full.
    pub window_pos: usize,
    /// The last full tick interval, workload plus sleep.
    pub last_interval_us: u64,
}

impl RealtimePacemaker {
    /// The window is at most ten wide and the overwrite position tracks it.
    pub open spec fn wf(&self) -> bool {
        self.window@.len() <= 10 && (self.window@.len() < 10 ==> self.window_pos
            == self.window@.len()) && (self.window@.len() == 10 ==> self.window_pos < 10)
    }

    /// A pacemaker holding `frequency_millihertz` thousandths of a tick per
    /// second: the target interval is the reciprocal in microseconds.
    pub fn new(frequency_millihertz: u64) -> (r: RealtimePacemaker)
        requires
            frequency_millihertz >= 1,
        ensures
            r.wf(),
            r.target_interval_us == 1_000_000_000u64 / frequency_millihertz,
            r.last_tick_us is None,
            r.window@ == Seq::<u64>::empty(),
            r.last_interval_us == 0,
    {
        let r = RealtimePacemaker {
            target_interval_us: 1_000_000_000u64 / frequency_millihertz,
            last_tick_us: None,
            window: Vec::new(),
            window_pos: 0,
            last_interval_us: 0,
        };
        r
    }

    /// Account the workload since the last tick and return how long to
    /// sleep: the target interval less the moving-average workload. The
    /// first tick only records that the loop is running and plans no sleep.
    pub fn tick(&mut self, now_us: u64) -> (sleep_us: u64)
        requires
            old(self).wf(),
            old(self).last_tick_us is Some ==> now_us >= old(self).last_tick_us->Some_0,
        ensures
            final(self).wf(),
            final(self).target_interval_us == old(self).target_interval_us,
            final(self).last_tick_us == old(self).last_tick_us,
            final(self).last_interval_us == old(self).last_interval_us,
            match old(self).last_tick_us {
                None => sleep_us == 0 && final(self).window@ == old(self).window@
                    && final(self).window_pos == old(self).window_pos,
                Some(last) => ({
                    let (wnd, pos) = spec_record(
                        old(self).window@,
                        old(self).window_pos as int,
                        (now_us - last) as u64,
                    );
                    &&& final(self).window@ == wnd
                    &&& final(self).window_pos == pos
                    &&& sleep_us == spec_sleep(old(self).target_interval_us as int, wnd)
                }),
            },
    {
        let last = match self.last_tick_us {
            None => {
                return 0;
            },
            Some(l) => l,
        };
        let sample = now_us - last;
        if self.window.len() < 10 {
            self.window.push(sample);
        } else {
            let pos = self.window_pos;
            self.window[pos] = sample;
        }
        self.window_pos = if self.window_pos + 1 == 10 {
            0
        } else {
            self.window_pos + 1
        };
        let avg = window_average(&self.window);
        if self.target_interval_us > avg {
            self.target_interval_us - avg
        } else {
            0
        }
    }

    /// Record the tick's completion time: the full interval since the
    /// previous completion becomes the reported cadence.
    pub fn settle(&mut self, now_us: u64)
        requires
            old(self).last_tick_us is Some ==> now_us >= old(self).last_tick_us->Some_0,
        ensures
            final(self).last_tick_us == Some(now_us),
            final(self).target_interval_us == old(self).target_interval_us,
            final(self).window@ == old(self).window@,
            final(self).window_pos == old(self).window_pos,
            final(self).wf() == old(self).wf(),
            match old(self).last_tick_us {
                None => final(self).last_interval_us == old(self).last_interval_us,
                Some(last) => final(self).last_interval_us == now_us - last,
            },
    {
        match self.last_tick_us {
            None => {},
            Some(last) => {
                self.last_interval_us = now_us - last;
            },
        }
        self.last_tick_us = Some(now_us);
    }

    /// The last observed full tick interval, in microseconds.
    pub fn current_interval_us(&self) -> (r: u64)
        ensures
            r == self.last_interval_us,
    {
        self.last_interval_us
    }

    /// The observed cadence, in thousandths of a tick per second; zero
    /// before the second tick.
    pub fn current_frequency_millihertz(&self) -> (r: u64)
        ensures
            r == if self.last_interval_us == 0 {
                0u64
            } else {
                (1_000_000_000u64 / self.last_interval_us) as u64
            },
    {
        if self.last_interval_us == 0 {
            0
        } else {
            1_000_000_000u64 / self.last_interval_us
        }
    }
}

/// The average of the samples, rounding down.
fn window_average(window: &Vec<u64>) -> (r: u64)
    requires
        window@.len() >= 1,
    ensures
        r == spec_average(window@),
{
    let mut sum: u128 = 0;
    let mut i: usize = 0;
    while i < window.len()
        invariant
            i <= window@.len(),
            sum == spec_sum(window@.take(i as int)),
            sum <= i * u64::MAX,
        decreases window@.len() - i,
    {
        proof {
            assert(window@.take(i as int + 1).drop_last() =~= window@.take(i as int));
            assert(window@.take(i as int + 1).last() == window@[i as int]);
            assert(i * u64::MAX + u64::MAX == (i + 1) * u64::MAX) by (nonlinear_arith);
            assert((i + 1) * u64::MAX <= u64::MAX * u64::MAX) by (nonlinear_arith)
                requires
                    i + 1 <= u64::MAX,
            ;
            assert(u64::MAX * u64::MAX < u128::MAX) by (nonlinear_arith);
        }
        sum = sum + (window[i] as u128);
        i = i + 1;
    }
    proof {
        assert(window@.take(window@.len() as int) =~= window@);
        let n = window@.len() as int;
        vstd::arithmetic::div_mod::lemma_div_pos_is_pos(sum as int, n);
        vstd::arithmetic::div_mod::lemma_div_is_ordered(sum as int, n * u64::MAX, n);
        vstd::arithmetic::div_mod::lemma_div_multiples_vanish(u64::MAX as int, n);
    }
    let avg = sum / (window.len() as u128);
    avg as u64
}

/// The watchdog's deadline: twenty target intervals without a reset ends
/// the process.
pub fn watchdog_timeout_us(target_interval_us: u64) -> (r: Option<u64>)
    ensures
        r == if 20 * target_interval_us <= u64::MAX {
            Some((20 * target_interval_us) as u64)
        } else {
            None::<u64>
        },
{
    target_interval_us.checked_mul(20)
}

} // verus!
