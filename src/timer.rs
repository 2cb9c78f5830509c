use vstd::prelude::*;

verus! {

/// Per-site rate limiter. Times are milliseconds on one clock chosen by the
/// caller; `time_between` is the least gap between two granted requests.
#[derive(Copy, Clone, Debug)]
pub struct Timer {
    pub start_time: u64,
    pub time_between: u64,
}

impl Timer {
    /// Whether a request at `now` may go out: strictly more than the period
    /// has passed since the last granted one.
    pub open spec fn permits(self, now: u64) -> bool {
        now > self.start_time + self.time_between
    }

    /// The timer after one `can_send` at `now`.
    pub open spec fn step(self, now: u64) -> Timer {
        if self.permits(now) {
            Timer { start_time: now, time_between: self.time_between }
        } else {
            self
        }
    }

    /// A timer whose period starts at `now`.
    pub fn new(time_between: u64, now: u64) -> (r: Timer)
        ensures
            r.start_time == now,
            r.time_between == time_between,
    {
        Timer { start_time: now, time_between }
    }

    /// Grants a request at `now` when the period has passed, and then starts
    /// a new period from `now`; otherwise leaves the timer unchanged.
    pub fn can_send(&mut self, now: u64) -> (r: bool)
        ensures
            r == old(self).permits(now),
            *final(self) == old(self).step(now),
    {
        if now > self.start_time && now - self.start_time > self.time_between {
            self.start_time = now;
            true
        } else {
            false
        }
    }
}

/// The timer after a `can_send` at each of `times`, in order.
pub open spec fn replay(t: Timer, times: Seq<u64>) -> Timer
    decreases times.len(),
{
    if times.len() == 0 {
        t
    } else {
        replay(t, times.drop_last()).step(times.last())
    }
}

/// Whether the `i`-th of the calls `times` was granted.
pub open spec fn granted(t: Timer, times: Seq<u64>, i: int) -> bool {
    replay(t, times.take(i)).permits(times[i])
}

proof fn lemma_replay_keeps_period(t: Timer, times: Seq<u64>)
    ensures
        replay(t, times).time_between == t.time_between,
    decreases times.len(),
{
    if times.len() > 0 {
        lemma_replay_keeps_period(t, times.drop_last());
    }
}

proof fn lemma_start_after_grant(t: Timer, times: Seq<u64>, i: int, k: int)
    requires
        0 <= i < k <= times.len(),
        granted(t, times, i),
    ensures
        replay(t, times.take(k)).start_time >= times[i],
    decreases k,
{
    let prev = times.take(k - 1);
    assert(times.take(k).drop_last() =~= prev);
    if k - 1 == i {
        assert(prev =~= times.take(i));
    } else {
        lemma_start_after_grant(t, times, i, k - 1);
    }
}

/// Rate law: of any run of `can_send` calls on one timer, two granted calls
/// lie more than the period apart.
pub proof fn lemma_grants_spaced(t: Timer, times: Seq<u64>, i: int, j: int)
    requires
        0 <= i < j < times.len(),
        granted(t, times, i),
        granted(t, times, j),
    ensures
        times[j] > times[i] + t.time_between,
{
    lemma_start_after_grant(t, times, i, j);
    lemma_replay_keeps_period(t, times.take(j));
}

} // verus!
