//! Per-attempt retry state machine and its exponential backoff with jitter.
//!
//! A port attempt moves through `Connecting -> {Open | Backoff -> Connecting
//! | ClosedOrFiltered}`.  The delay before reattempt `k` (1-indexed) is
//! `base * 2^min(k, 6)` plus a uniform random jitter below a quarter of that,
//! so delays grow exponentially but stop growing after six doublings.  The
//! per-attempt connect timeout never grows with retries.

use vstd::prelude::*;

verus! {

/// `2 ^ min(k, 6)`: the capped exponential multiplier.
pub open spec fn capped_pow2(k: nat) -> int {
    if k == 0 {
        1
    } else if k == 1 {
        2
    } else if k == 2 {
        4
    } else if k == 3 {
        8
    } else if k == 4 {
        16
    } else if k == 5 {
        32
    } else {
        64
    }
}

/// Deterministic backoff component before reattempt `k` (1-indexed):
/// `base * 2^min(k, 6)` milliseconds.
pub open spec fn backoff_det_ms(base: u64, k: nat) -> int {
    base * capped_pow2(k)
}

/// Relies on rand's `thread_rng` and `Rng::gen_range`: a draw from the
/// uniform distribution on `0..bound`, which panics only on an empty range.
#[verifier::external_body]
fn random_below(bound: u64) -> (r: u64)
    requires
        bound >= 1,
    ensures
        r < bound,
{
    rand::Rng::gen_range(&mut rand::thread_rng(), 0..bound)
}

/// The deterministic backoff component before reattempt `attempt`.
pub fn backoff_step_ms(base_delay_ms: u64, attempt: u32) -> (r: u64)
    requires
        80 * base_delay_ms as int <= u64::MAX as int,
    ensures
        r as int == backoff_det_ms(base_delay_ms, attempt as nat),
{
    let mult: u64 = if attempt >= 6 {
        64
    } else if attempt == 5 {
        32
    } else if attempt == 4 {
        16
    } else if attempt == 3 {
        8
    } else if attempt == 2 {
        4
    } else if attempt == 1 {
        2
    } else {
        1
    };
    proof {
        assert(base_delay_ms * mult <= base_delay_ms * 80) by (nonlinear_arith)
            requires
                mult <= 80,
        ;
    }
    base_delay_ms * mult
}

/// The whole delay before reattempt `attempt`: the deterministic component
/// plus a random jitter below a quarter of it (no jitter when that quarter
/// rounds to zero).
pub fn backoff_delay_ms(base_delay_ms: u64, attempt: u32) -> (r: u64)
    requires
        80 * base_delay_ms as int <= u64::MAX as int,
    ensures
        ({
            let det = backoff_det_ms(base_delay_ms, attempt as nat);
            &&& det <= r
            &&& det / 4 >= 1 ==> r < det + det / 4
            &&& det / 4 == 0 ==> r == det
        }),
{
    let det = backoff_step_ms(base_delay_ms, attempt);
    let quarter = det / 4;
    let jitter = if quarter >= 1 {
        random_below(quarter)
    } else {
        0
    };
    proof {
        assert(backoff_det_ms(base_delay_ms, attempt as nat) <= base_delay_ms * 64)
            by (nonlinear_arith)
            requires
                backoff_det_ms(base_delay_ms, attempt as nat) == base_delay_ms * capped_pow2(
                    attempt as nat,
                ),
                capped_pow2(attempt as nat) <= 64,
                base_delay_ms >= 0,
        ;
        assert(det + jitter <= 80 * base_delay_ms as int);
    }
    det + jitter
}

/// Backoff law: the deterministic delay component never decreases from one
/// reattempt to the next.
pub proof fn lemma_backoff_monotone(base: u64, k1: nat, k2: nat)
    requires
        k1 <= k2,
    ensures
        backoff_det_ms(base, k1) <= backoff_det_ms(base, k2),
{
    assert(capped_pow2(k1) <= capped_pow2(k2));
    assert(base * capped_pow2(k1) <= base * capped_pow2(k2)) by (nonlinear_arith)
        requires
            capped_pow2(k1) <= capped_pow2(k2),
            base >= 0,
    ;
}

/// Phases of one port's connect attempt sequence.
#[derive(Debug, Clone, Copy, PartialEq, Eq, Structural)]
pub enum AttemptPhase {
    /// About to make connect attempt number `attempt` (0-based).
    Connecting { attempt: u32 },
    /// Attempt `attempt` of the allowed ones just failed: sleep the backoff
    /// delay for reattempt `attempt`, then connect again.
    Backoff { attempt: u32 },
    /// Some connect attempt succeeded: the port is open.
    Open,
    /// Every allowed attempt failed: closed or filtered, undistinguished.
    ClosedOrFiltered,
}

/// Advance the state machine after connect attempt `attempt` (0-based)
/// returned `connected`, with `retries` reattempts allowed.
pub fn connect_result(attempt: u32, retries: u32, connected: bool) -> (r: AttemptPhase)
    ensures
        connected ==> r == AttemptPhase::Open,
        !connected && attempt < retries ==> r == (AttemptPhase::Backoff { attempt: (attempt
            + 1) as u32 }),
        !connected && attempt >= retries ==> r == AttemptPhase::ClosedOrFiltered,
{
    if connected {
        AttemptPhase::Open
    } else if attempt < retries {
        AttemptPhase::Backoff { attempt: attempt + 1 }
    } else {
        AttemptPhase::ClosedOrFiltered
    }
}

/// After the backoff sleep for reattempt `attempt`, connect again.
pub fn backoff_elapsed(attempt: u32) -> (r: AttemptPhase)
    ensures
        r == (AttemptPhase::Connecting { attempt }),
{
    AttemptPhase::Connecting { attempt }
}

/// Some attempt in the sequence succeeded.
pub open spec fn any_success(outcomes: Seq<bool>) -> bool {
    exists|i: int| 0 <= i < outcomes.len() && outcomes[i]
}

/// Whether the retry sequence reports the port open, given the result each of
/// the `retries + 1` connect attempts would have: open exactly when some
/// attempt succeeds.  Driving the state machine, the function stops at the
/// first success and never makes more than `retries + 1` attempts.
pub fn port_opened(outcomes: &Vec<bool>, retries: u32) -> (r: bool)
    requires
        outcomes@.len() == retries as int + 1,
    ensures
        r == any_success(outcomes@),
{
    let mut attempt: u32 = 0;
    loop
        invariant
            attempt <= retries,
            outcomes@.len() == retries as int + 1,
            forall|i: int| 0 <= i < attempt ==> !outcomes@[i],
        decreases retries - attempt,
    {
        let connected = outcomes[attempt as usize];
        match connect_result(attempt, retries, connected) {
            AttemptPhase::Open => {
                assert(outcomes@[attempt as int]);
                return true;
            },
            AttemptPhase::ClosedOrFiltered => {
                assert(forall|i: int| 0 <= i < outcomes@.len() ==> !outcomes@[i]);
                return false;
            },
            AttemptPhase::Backoff { attempt: a } => {
                match backoff_elapsed(a) {
                    AttemptPhase::Connecting { attempt: a2 } => {
                        attempt = a2;
                    },
                    _ => {
                        proof {
                            assert(false);
                        }
                    },
                }
            },
            AttemptPhase::Connecting { .. } => {
                proof {
                    assert(false);
                }
            },
        }
    }
}

} // verus!
