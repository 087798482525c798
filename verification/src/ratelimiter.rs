//! Token-bucket pacing shared by all work of a run.
//!
//! The limiter is modelled by the instant at which the next permit becomes
//! free.  A permit is available once the clock has reached `next_free_ms`;
//! taking it moves `next_free_ms` one whole interval past the grant instant,
//! so successive grants are at least `interval_ms` apart and intervals that
//! passed unused are never saved up as a burst.
//!
//! The unverified front end owns the clock and the waiting: it hands a
//! millisecond reading to [`RateLimiter::try_acquire`] and sleeps for
//! [`RateLimiter::wait_time_ms`] when no permit is free.

use vstd::prelude::*;
use vstd::arithmetic::div_mod::{lemma_div_is_ordered, lemma_div_multiples_vanish};

verus! {

/// Grant instants spaced at least `interval` milliseconds apart.
pub open spec fn paced(s: Seq<u64>, interval: u64) -> bool {
    forall|i: int| 0 <= i < s.len() - 1 ==> (#[trigger] s[i + 1]) >= s[i] + interval
}

/// The replenishment interval for a token rate, in milliseconds:
/// `max(1, 1000 / max(1, tokens_per_sec))`.
pub open spec fn spec_interval_ms(tokens_per_sec: u32) -> int {
    let tps: int = if tokens_per_sec == 0 {
        1
    } else {
        tokens_per_sec as int
    };
    let iv = 1000int / tps;
    if iv == 0 {
        1
    } else {
        iv
    }
}

/// Token-bucket rate limiter state.
pub struct RateLimiter {
    /// Milliseconds between two permit grants.
    pub interval_ms: u64,
    /// Clock reading from which the next permit may be taken.
    pub next_free_ms: u64,
    /// Instants of all grants so far (ghost bookkeeping for the pacing law).
    pub grants: Ghost<Seq<u64>>,
}

impl RateLimiter {
    /// The limiter's invariant: a positive interval, well-paced grants, and
    /// the next free instant a full interval after the last grant.
    pub open spec fn wf(self) -> bool {
        &&& 1 <= self.interval_ms <= 1000
        &&& paced(self.grants@, self.interval_ms)
        &&& self.grants@.len() > 0 ==> self.next_free_ms >= self.grants@.last()
            + self.interval_ms
    }

    /// Build a limiter for `tokens_per_sec` permits per second; a zero rate is
    /// treated as one per second (the front end simply omits the limiter for
    /// an unlimited run).  The first permit is free immediately.
    pub fn new(tokens_per_sec: u32) -> (r: RateLimiter)
        ensures
            r.wf(),
            r.interval_ms == spec_interval_ms(tokens_per_sec),
            r.next_free_ms == 0,
            r.grants@ =~= Seq::<u64>::empty(),
    {
        let tps: u32 = if tokens_per_sec == 0 {
            1
        } else {
            tokens_per_sec
        };
        let iv: u32 = 1000 / tps;
        let interval: u32 = if iv == 0 {
            1
        } else {
            iv
        };
        RateLimiter { interval_ms: interval as u64, next_free_ms: 0, grants: Ghost(Seq::empty()) }
    }

    /// Take a permit at clock reading `now_ms` if one is free.  A grant pushes
    /// the next free instant one interval past `now_ms`; a refusal changes
    /// nothing.
    pub fn try_acquire(&mut self, now_ms: u64) -> (granted: bool)
        requires
            old(self).wf(),
            now_ms <= u64::MAX - 1000,
        ensures
            final(self).wf(),
            final(self).interval_ms == old(self).interval_ms,
            granted == (now_ms >= old(self).next_free_ms),
            granted ==> final(self).next_free_ms == now_ms + old(self).interval_ms,
            granted ==> final(self).grants@ =~= old(self).grants@.push(now_ms),
            !granted ==> *final(self) == *old(self),
    {
        if now_ms >= self.next_free_ms {
            proof {
                let g = self.grants@;
                let g2 = g.push(now_ms);
                assert forall|i: int| 0 <= i < g2.len() - 1 implies (#[trigger] g2[i + 1]) >= g2[i]
                    + self.interval_ms by {
                    if i < g.len() - 1 {
                        assert(g2[i] == g[i] && g2[i + 1] == g[i + 1]);
                    } else {
                        assert(g2[i] == g.last() && g2[i + 1] == now_ms);
                    }
                }
            }
            self.grants = Ghost(self.grants@.push(now_ms));
            self.next_free_ms = now_ms + self.interval_ms;
            true
        } else {
            false
        }
    }

    /// How long a caller refused at `now_ms` must wait before a permit frees.
    pub fn wait_time_ms(&self, now_ms: u64) -> (r: u64)
        ensures
            r as int == if now_ms >= self.next_free_ms {
                0int
            } else {
                self.next_free_ms - now_ms
            },
    {
        if now_ms >= self.next_free_ms {
            0
        } else {
            self.next_free_ms - now_ms
        }
    }
}

/// Consecutive grants of a paced sequence are at least their index distance
/// times the interval apart.
proof fn lemma_paced_gap(s: Seq<u64>, interval: u64, i: int, j: int)
    requires
        paced(s, interval),
        0 <= i <= j < s.len(),
    ensures
        s[j] >= s[i] + (j - i) * interval,
    decreases j - i,
{
    if i < j {
        lemma_paced_gap(s, interval, i, j - 1);
        assert(s[(j - 1) + 1] >= s[j - 1] + interval);
        assert((j - i) * interval == (j - 1 - i) * interval + interval) by (nonlinear_arith);
        assert(s[j] >= s[i] + (j - i) * interval);
    } else {
        assert((j - i) * interval == 0) by (nonlinear_arith)
            requires
                i == j,
        ;
    }
}

/// Pacing law over an arbitrary window: any stretch `i..=j` of a paced grant
/// sequence whose instants lie inside a window of `window_ms` milliseconds
/// holds at most `window_ms / interval + 1` grants.
pub proof fn lemma_paced_window(
    s: Seq<u64>,
    interval: u64,
    i: int,
    j: int,
    w_start: int,
    window_ms: int,
)
    requires
        interval >= 1,
        paced(s, interval),
        0 <= i <= j < s.len(),
        window_ms >= 0,
        w_start <= s[i],
        s[j] <= w_start + window_ms,
    ensures
        j - i + 1 <= window_ms / (interval as int) + 1,
{
    lemma_paced_gap(s, interval, i, j);
    let d = j - i;
    let iv = interval as int;
    assert(d * iv <= window_ms);
    assert((d * iv) / iv == d) by {
        lemma_div_multiples_vanish(d, iv);
    }
    lemma_div_is_ordered(d * iv, window_ms, iv);
}

/// Pacing law in tokens per second: for a rate whose interval divides the
/// second evenly (`interval * rate == 1000`), at most `rate * t + 1` permits
/// are granted inside any window of `t` seconds.
pub proof fn lemma_rate_window(
    s: Seq<u64>,
    interval: u64,
    rate: int,
    i: int,
    j: int,
    w_start: int,
    t: int,
)
    requires
        interval >= 1,
        rate >= 1,
        interval * rate == 1000,
        paced(s, interval),
        0 <= i <= j < s.len(),
        t >= 0,
        w_start <= s[i],
        s[j] <= w_start + t * 1000,
    ensures
        j - i + 1 <= rate * t + 1,
{
    lemma_paced_window(s, interval, i, j, w_start, t * 1000);
    let iv = interval as int;
    assert(t * 1000 == (t * rate) * iv) by (nonlinear_arith)
        requires
            iv * rate == 1000,
    ;
    assert((t * rate * iv) / iv == t * rate) by {
        lemma_div_multiples_vanish(t * rate, iv);
        assert(t * rate * iv == iv * (t * rate)) by (nonlinear_arith);
    }
    assert(rate * t == t * rate) by (nonlinear_arith);
}

} // verus!
