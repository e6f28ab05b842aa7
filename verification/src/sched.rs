//! The wall-clock-aligned refresh cadences.
//!
//! The render loop runs far more often than once a second; the sampler
//! sequence must run once per second, aligned to whole-second
//! boundaries rather than drifting with frame latency.  The scheduler
//! keeps one deadline and decides each frame; the independent
//! background pollers compute their sleep from the same wall clock,
//! clamped so the loop neither spins nor skips a second.
//!
//! All times are wall-clock milliseconds.

use vstd::prelude::*;

verus! {

/// The instant where the wall clock next crosses a whole second after
/// `now`.
pub open spec fn next_second_boundary(now: int) -> int {
    now + 1000 - (now % 1000)
}

/// The render-tick-gated refresher: fires at most once per second,
/// however often the render loop asks.
pub struct RefreshScheduler {
    /// The deadline the next refresh must pass, in wall-clock
    /// milliseconds.  Starts at zero, so the first frame refreshes.
    pub next_update_millis: i64,
}

impl RefreshScheduler {
    /// A scheduler whose first frame fires immediately.
    pub fn new() -> (r: Self)
        ensures
            r.next_update_millis == 0,
    {
        RefreshScheduler { next_update_millis: 0 }
    }

    /// Decides one render frame: fires exactly when `now` has passed
    /// the stored deadline, and then moves the deadline to the next
    /// whole-second boundary, so ticks align to the wall clock instead
    /// of drifting with frame latency.
    pub fn tick(&mut self, now_millis: i64) -> (fired: bool)
        requires
            0 <= now_millis <= i64::MAX - 1000,
        ensures
            fired == (now_millis > old(self).next_update_millis),
            fired ==> final(self).next_update_millis as int == next_second_boundary(
                now_millis as int,
            ),
            !fired ==> *final(self) == *old(self),
    {
        if now_millis > self.next_update_millis {
            let sub = now_millis % 1000;
            self.next_update_millis = now_millis + (1000 - sub);
            true
        } else {
            false
        }
    }
}

/// The deadline set after a refresh is a whole-second boundary in the
/// second right after the refresh.
pub proof fn lemma_boundary_aligned(t: int)
    requires
        0 <= t,
    ensures
        next_second_boundary(t) % 1000 == 0,
        t < next_second_boundary(t) <= t + 1000,
{
    assert(t == 1000 * (t / 1000) + t % 1000) by {
        vstd::arithmetic::div_mod::lemma_fundamental_div_mod(t, 1000);
    }
    assert(next_second_boundary(t) == 1000 * (t / 1000 + 1));
    assert(1000 * (t / 1000 + 1) % 1000 == 0) by (nonlinear_arith);
}

/// Refresh cadence, first half: after a refresh at `t`, no frame in
/// the same wall-clock second can fire again — the deadline sits at
/// the end of that second.
pub proof fn lemma_no_refire_within_second(t: int, t2: int)
    requires
        0 <= t <= t2,
        t2 / 1000 == t / 1000,
    ensures
        !(t2 > next_second_boundary(t)),
{
    vstd::arithmetic::div_mod::lemma_fundamental_div_mod(t, 1000);
    vstd::arithmetic::div_mod::lemma_fundamental_div_mod(t2, 1000);
    vstd::arithmetic::div_mod::lemma_mod_bound(t2, 1000);
}

/// Refresh cadence, second half: after a refresh at `t`, every frame
/// that falls in a later wall-clock second and at least a millisecond
/// past its start fires.  Together with the first half: with frames
/// coming more often than once a second, the refresh fires exactly
/// once per second boundary crossed.
pub proof fn lemma_fires_after_boundary(t: int, t2: int)
    requires
        0 <= t,
        t2 / 1000 > t / 1000,
        t2 % 1000 >= 1,
    ensures
        t2 > next_second_boundary(t),
{
    vstd::arithmetic::div_mod::lemma_fundamental_div_mod(t, 1000);
    vstd::arithmetic::div_mod::lemma_fundamental_div_mod(t2, 1000);
    assert(t2 == 1000 * (t2 / 1000) + t2 % 1000);
    assert(next_second_boundary(t) == 1000 * (t / 1000 + 1));
    assert(1000 * (t2 / 1000) >= 1000 * (t / 1000 + 1)) by (nonlinear_arith)
        requires
            t2 / 1000 >= t / 1000 + 1,
    ;
}

/// The sleep before a background poller's next iteration: to the next
/// whole second, capped at `cap` and at least 520 ms, so the loop
/// neither spins on a near-zero remainder nor sleeps past a second.
pub open spec fn background_sleep_spec(now: int, cap: int) -> int {
    let raw = 1000 - now % 1000;
    if raw > cap {
        cap
    } else if raw < 520 {
        520
    } else {
        raw
    }
}

/// The clamped sleep until a background poller's next iteration.
pub fn background_sleep_millis(now_millis: i64, cap: i64) -> (r: i64)
    requires
        0 <= now_millis,
        520 <= cap <= 1000,
    ensures
        r as int == background_sleep_spec(now_millis as int, cap as int),
        520 <= r <= cap,
{
    proof {
        vstd::arithmetic::div_mod::lemma_mod_bound(now_millis as int, 1000);
    }
    let raw = 1000 - now_millis % 1000;
    if raw > cap {
        cap
    } else if raw < 520 {
        520
    } else {
        raw
    }
}

/// How long a frame may wait before the wall clock reaches the next
/// whole second; the render loop asks to be repainted shortly after.
pub fn millis_until_next_second(now_millis: i64) -> (r: i64)
    requires
        0 <= now_millis,
    ensures
        r as int == 1000 - now_millis as int % 1000,
        1 <= r <= 1000,
{
    proof {
        vstd::arithmetic::div_mod::lemma_mod_bound(now_millis as int, 1000);
    }
    1000 - now_millis % 1000
}

} // verus!
