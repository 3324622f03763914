//! The adapter's throttle: how often the low-rate incoming-connection sweep
//! runs, driven by whether each round of polling found work.
use vstd::prelude::*;

verus! {

/// Upper bound of the backoff counter.
pub const DP_LIMIT: usize = 131072;

/// Least time between two incoming-connection sweeps, in milliseconds.
pub const CMD_MAX_INTERVAL_MS: u64 = 1000;

/// State of the throttle.
#[derive(Clone, Copy, Debug, PartialEq, Eq, Structural)]
pub struct Backoff {
    /// Rounds since the counter was last reset.
    pub dp_spin_cnt: usize,
    /// Rounds to wait before the next sweep check.
    pub backoff: usize,
    /// Time of the last sweep, in milliseconds of a monotonic clock.
    pub last_sweep_ms: u64,
}

/// Milliseconds from `last` to `now`; zero if the clock reads earlier.
pub open spec fn elapsed_ms(now: u64, last: u64) -> int {
    if now >= last {
        now - last
    } else {
        0
    }
}

pub open spec fn double_capped(b: int) -> int {
    if 2 * b <= DP_LIMIT {
        2 * b
    } else {
        DP_LIMIT as int
    }
}

pub open spec fn halve_floored(b: int) -> int {
    if b / 2 >= 1 {
        b / 2
    } else {
        1
    }
}

/// One round of the throttle: the state after it and whether the sweep runs.
/// Work doubles the backoff (capped). The counter counts rounds; when it
/// reaches the backoff it resets, and the sweep runs (halving the backoff)
/// if the interval has passed since the last sweep, else the backoff doubles.
pub open spec fn round_spec(b: Backoff, work: nat, now: u64) -> (Backoff, bool) {
    let b1 = if work > 0 {
        double_capped(b.backoff as int)
    } else {
        b.backoff as int
    };
    let cnt = b.dp_spin_cnt + 1;
    if cnt < b1 {
        (Backoff { dp_spin_cnt: cnt as usize, backoff: b1 as usize, last_sweep_ms: b.last_sweep_ms }, false)
    } else if elapsed_ms(now, b.last_sweep_ms) >= CMD_MAX_INTERVAL_MS {
        (Backoff { dp_spin_cnt: 0, backoff: halve_floored(b1) as usize, last_sweep_ms: now }, true)
    } else {
        (
            Backoff {
                dp_spin_cnt: 0,
                backoff: double_capped(b1) as usize,
                last_sweep_ms: b.last_sweep_ms,
            },
            false,
        )
    }
}

impl Backoff {
    pub open spec fn wf(&self) -> bool {
        &&& 1 <= self.backoff <= DP_LIMIT
        &&& self.dp_spin_cnt < self.backoff
    }

    pub open spec fn new_spec(now_ms: u64) -> Backoff {
        Backoff { dp_spin_cnt: 0, backoff: 1, last_sweep_ms: now_ms }
    }

    /// A throttle that starts at `now_ms` with the least backoff.
    pub fn new(now_ms: u64) -> (r: Backoff)
        ensures
            r.wf(),
            r == Self::new_spec(now_ms),
    {
        Backoff { dp_spin_cnt: 0, backoff: 1, last_sweep_ms: now_ms }
    }

    /// Ends a round of polling that found `work` items, at time `now_ms`;
    /// returns whether the incoming-connection sweep runs now.
    pub fn finish_round(&mut self, work: usize, now_ms: u64) -> (sweep: bool)
        requires
            old(self).wf(),
        ensures
            (*final(self), sweep) == round_spec(*old(self), work as nat, now_ms),
            final(self).wf(),
            sweep ==> elapsed_ms(now_ms, old(self).last_sweep_ms) >= CMD_MAX_INTERVAL_MS,
    {
        if work > 0 {
            self.backoff = if self.backoff <= DP_LIMIT / 2 {
                self.backoff * 2
            } else {
                DP_LIMIT
            };
        }
        self.dp_spin_cnt = self.dp_spin_cnt + 1;
        if self.dp_spin_cnt < self.backoff {
            return false;
        }
        self.dp_spin_cnt = 0;
        let elapsed: u64 = if now_ms >= self.last_sweep_ms {
            now_ms - self.last_sweep_ms
        } else {
            0
        };
        if elapsed >= CMD_MAX_INTERVAL_MS {
            self.last_sweep_ms = now_ms;
            self.backoff = if self.backoff / 2 >= 1 {
                self.backoff / 2
            } else {
                1
            };
            true
        } else {
            self.backoff = if self.backoff <= DP_LIMIT / 2 {
                self.backoff * 2
            } else {
                DP_LIMIT
            };
            false
        }
    }
}

/// The throttle after each round of a schedule: `states[0]` is `start`, and
/// `states[i + 1]` follows `states[i]` by round `i`.
pub open spec fn run_rounds(start: Backoff, works: Seq<nat>, times: Seq<u64>) -> Seq<(Backoff, bool)>
    recommends
        works.len() == times.len(),
    decreases works.len(),
{
    if works.len() == 0 {
        seq![(start, false)]
    } else {
        let prev = run_rounds(start, works.drop_last(), times.drop_last());
        prev.push(round_spec(prev.last().0, works.last(), times.last()))
    }
}

/// Whatever the schedule of rounds with and without work, the backoff stays
/// within `[1, DP_LIMIT]`; and with a clock that does not go back, two sweeps
/// are at least `CMD_MAX_INTERVAL_MS` apart.
pub proof fn lemma_backoff_schedule(start: Backoff, works: Seq<nat>, times: Seq<u64>)
    requires
        start.wf(),
        works.len() == times.len(),
        forall|i: int, j: int| 0 <= i < j < times.len() ==> times[i] <= times[j],
        times.len() > 0 ==> start.last_sweep_ms <= times[0],
    ensures
        run_rounds(start, works, times).len() == works.len() + 1,
        forall|k: int|
            0 <= k < run_rounds(start, works, times).len() ==> (#[trigger] run_rounds(
                start,
                works,
                times,
            )[k]).0.wf(),
        forall|i: int, j: int|
            0 < i < j <= works.len() && (#[trigger] run_rounds(start, works, times)[i]).1
                && (#[trigger] run_rounds(start, works, times)[j]).1 ==> times[j - 1] - times[i
                - 1] >= CMD_MAX_INTERVAL_MS,
        forall|k: int|
            0 < k <= works.len() ==> (#[trigger] run_rounds(start, works, times)[k]).0.last_sweep_ms
                <= times[k - 1],
        forall|k: int, i: int|
            0 < i <= k <= works.len() && (#[trigger] run_rounds(start, works, times)[i]).1
                ==> (#[trigger] run_rounds(start, works, times)[k]).0.last_sweep_ms >= times[i - 1],
    decreases works.len(),
{
    let s = run_rounds(start, works, times);
    if works.len() > 0 {
        let w0 = works.drop_last();
        let t0 = times.drop_last();
        lemma_backoff_schedule(start, w0, t0);
        let prev = run_rounds(start, w0, t0);
        let n = works.len() as int;
        assert(s == prev.push(round_spec(prev.last().0, works.last(), times.last())));
        assert forall|k: int| 0 <= k < s.len() implies (#[trigger] s[k]).0.wf() by {
            if k < n {
                assert(s[k] == prev[k]);
            } else {
                lemma_round_wf(prev.last().0, works.last(), times.last());
            }
        }
        assert forall|k: int| 0 < k <= n implies (#[trigger] s[k]).0.last_sweep_ms <= times[k - 1] by {
            if k < n {
                assert(s[k] == prev[k]);
                assert(t0[k - 1] == times[k - 1]);
            } else if k - 1 > 0 {
                assert(prev[k - 1].0.last_sweep_ms <= t0[k - 2]);
                assert(times[k - 2] <= times[k - 1]);
            }
        }
        assert forall|k: int, i: int|
            0 < i <= k <= n && (#[trigger] s[i]).1 implies (#[trigger] s[k]).0.last_sweep_ms
            >= times[i - 1] by {
            if k < n {
                assert(s[k] == prev[k]);
                assert(s[i] == prev[i]);
                assert(t0[i - 1] == times[i - 1]);
            } else if i < n {
                assert(s[i] == prev[i]);
                assert(t0[i - 1] == times[i - 1]);
                assert(prev[k - 1].0.last_sweep_ms >= t0[i - 1]);
            }
        }
        assert forall|i: int, j: int|
            0 < i < j <= n && (#[trigger] s[i]).1 && (#[trigger] s[j]).1 implies times[j - 1]
            - times[i - 1] >= CMD_MAX_INTERVAL_MS by {
            if j < n {
                assert(s[j] == prev[j]);
                assert(s[i] == prev[i]);
                assert(t0[i - 1] == times[i - 1]);
                assert(t0[j - 1] == times[j - 1]);
            } else {
                assert(s[i] == prev[i]);
                assert(t0[i - 1] == times[i - 1]);
                assert(prev[n - 1].0.last_sweep_ms >= t0[i - 1]);
                if n - 1 > 0 {
                    assert(prev[n - 1].0.last_sweep_ms <= t0[n - 2]);
                    assert(times[n - 2] <= times[n - 1]);
                }
            }
        }
    }
}

proof fn lemma_round_wf(b: Backoff, work: nat, now: u64)
    requires
        b.wf(),
    ensures
        round_spec(b, work, now).0.wf(),
{
}

} // verus!
