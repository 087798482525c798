//! Per-host scan bookkeeping: the scan policy with its fail-fast validation,
//! the global connection cap, and the deterministic fan-in of concurrently
//! completing port results into a sorted open-port list.
//!
//! Connecting, task spawning and waiting live in the unverified front end;
//! it hands every completed attempt's result back here, in whatever order
//! completion happened, and the ordering of the output is imposed at the end.

use vstd::prelude::*;
use crate::ports::strictly_ascending;

verus! {

/// Immutable configuration snapshot for one scan run.
#[derive(Debug, Clone)]
pub struct ScanPolicy {
    /// Per-attempt connect timeout, in milliseconds; never grows with retries.
    pub timeout_ms: u64,
    /// Concurrent attempts allowed against one host.
    pub per_host_concurrency: usize,
    /// Lookup reattempts for best-effort resolution.
    pub dns_retries: u32,
    /// Delay between lookup attempts, in milliseconds.
    pub dns_retry_delay_ms: u64,
    /// Token-bucket rate in permits per second; zero means unlimited.
    pub qps: u32,
    /// Connect reattempts per port after the first failure.
    pub retries: u32,
    /// Base backoff delay between reattempts, in milliseconds.
    pub retry_delay_ms: u64,
    /// Cap on in-flight attempts across all hosts; `None` derives it from the
    /// two concurrency settings.
    pub max_connections: Option<usize>,
}

/// Configuration errors that must surface before any network I/O.
#[derive(Debug, Clone, Copy, PartialEq, Eq, Structural)]
pub enum PolicyError {
    /// A concurrency setting of zero would allow no progress.
    ZeroConcurrency,
    /// A retry delay so large that its capped exponential growth overflows.
    RetryDelayTooLarge,
}

impl ScanPolicy {
    /// A policy on which a run can make progress and compute its delays.
    pub open spec fn wf(self) -> bool {
        &&& self.per_host_concurrency >= 1
        &&& (self.max_connections matches Some(m) ==> m >= 1)
        &&& self.retries < u32::MAX
        &&& 80 * self.retry_delay_ms as int <= u64::MAX as int
    }

    /// Fail-fast validation, before any network I/O: `Ok` exactly on the
    /// policies every later step accepts.
    pub fn validate(&self) -> (r: Result<(), PolicyError>)
        ensures
            r is Ok <==> self.wf(),
            r matches Err(e) ==> ((e == PolicyError::ZeroConcurrency) == (self.per_host_concurrency
                == 0 || self.max_connections == Some(0usize))),
    {
        if self.per_host_concurrency == 0 {
            return Err(PolicyError::ZeroConcurrency);
        }
        match self.max_connections {
            Some(m) => {
                if m == 0 {
                    return Err(PolicyError::ZeroConcurrency);
                }
            },
            None => {},
        }
        if self.retries == u32::MAX || self.retry_delay_ms > u64::MAX / 80 {
            return Err(PolicyError::RetryDelayTooLarge);
        }
        Ok(())
    }
}

/// `a * b` clamped to `usize`.
pub open spec fn sat_mul(a: int, b: int) -> int {
    if a * b > usize::MAX as int {
        usize::MAX as int
    } else {
        a * b
    }
}

/// The run-wide cap on in-flight connection attempts: the configured
/// `max_connections`, or per-host concurrency times host concurrency
/// (saturating), and at least one either way.
pub open spec fn spec_max_connections(
    concurrency: int,
    host_concurrency: int,
    max_connections: Option<usize>,
) -> int {
    match max_connections {
        Some(m) => if m >= 1 {
            m as int
        } else {
            1int
        },
        None => {
            let h = if host_concurrency >= 1 {
                host_concurrency
            } else {
                1int
            };
            let t = sat_mul(concurrency, h);
            if t >= 1 {
                t
            } else {
                1int
            }
        },
    }
}

/// Compute the run-wide connection cap from the settings.
pub fn effective_max_connections(
    concurrency: usize,
    host_concurrency: usize,
    max_connections: Option<usize>,
) -> (r: usize)
    ensures
        r as int == spec_max_connections(concurrency as int, host_concurrency as int, max_connections),
        r >= 1,
{
    match max_connections {
        Some(m) => {
            if m >= 1 {
                m
            } else {
                1
            }
        },
        None => {
            let h: usize = if host_concurrency >= 1 {
                host_concurrency
            } else {
                1
            };
            let t: usize = if concurrency == 0 {
                proof {
                    assert(concurrency as int * h as int == 0) by (nonlinear_arith)
                        requires
                            concurrency == 0,
                    ;
                }
                0
            } else if h <= usize::MAX / concurrency {
                proof {
                    let c = concurrency as int;
                    let hh = h as int;
                    let m = usize::MAX as int;
                    vstd::arithmetic::div_mod::lemma_fundamental_div_mod(m, c);
                    assert(c * hh <= m) by (nonlinear_arith)
                        requires
                            hh <= m / c,
                            c >= 1,
                            m == c * (m / c) + m % c,
                            m % c >= 0,
                    ;
                }
                concurrency * h
            } else {
                proof {
                    let c = concurrency as int;
                    let hh = h as int;
                    let m = usize::MAX as int;
                    vstd::arithmetic::div_mod::lemma_fundamental_div_mod(m, c);
                    assert(c * hh > m) by (nonlinear_arith)
                        requires
                            hh >= m / c + 1,
                            c >= 1,
                            m == c * (m / c) + m % c,
                            m % c < c,
                    ;
                }
                usize::MAX
            };
            if t >= 1 {
                t
            } else {
                1
            }
        },
    }
}

/// Some completed attempt reports port `p` open.
pub open spec fn reported_open(results: Seq<(u16, bool)>, p: u16) -> bool {
    exists|i: int| 0 <= i < results.len() && (#[trigger] results[i]).0 == p && results[i].1
}

/// Does any completed attempt report `p` open?
fn reported_open_exec(results: &Vec<(u16, bool)>, p: u16) -> (r: bool)
    ensures
        r == reported_open(results@, p),
{
    let mut i: usize = 0;
    while i < results.len()
        invariant
            0 <= i <= results@.len(),
            forall|j: int| 0 <= j < i ==> !((#[trigger] results@[j]).0 == p && results@[j].1),
        decreases results@.len() - i,
    {
        let (port, opened) = results[i];
        if port == p && opened {
            return true;
        }
        i = i + 1;
    }
    false
}

/// Fan the per-port completion results back in: the ports reported open, in
/// strictly ascending order, however the concurrent attempts interleaved.
pub fn collect_open_ports(results: &Vec<(u16, bool)>) -> (r: Vec<u16>)
    ensures
        strictly_ascending(r@),
        forall|p: u16| r@.contains(p) <==> reported_open(results@, p),
{
    let mut out: Vec<u16> = Vec::new();
    let mut p: usize = 0;
    while p <= 65535
        invariant
            0 <= p <= 65536,
            strictly_ascending(out@),
            forall|k: int| 0 <= k < out@.len() ==> (#[trigger] out@[k]) < p,
            forall|q: u16|
                q < p ==> ((#[trigger] out@.contains(q)) <==> reported_open(results@, q)),
        decreases 65536 - p,
    {
        let pw = p as u16;
        if reported_open_exec(results, pw) {
            let ghost old_out = out@;
            out.push(pw);
            proof {
                assert forall|q: u16| q < p + 1 implies ((#[trigger] out@.contains(q))
                    <==> reported_open(results@, q)) by {
                    crate::ports::lemma_push_contains(old_out, pw, q);
                }
            }
        } else {
            proof {
                assert forall|q: u16| q < p + 1 implies ((#[trigger] out@.contains(q))
                    <==> reported_open(results@, q)) by {
                    if q == p && out@.contains(q) {
                        let k = choose|k: int| 0 <= k < out@.len() && out@[k] == q;
                        assert(out@[k] < p);
                    }
                }
            }
        }
        p = p + 1;
    }
    out
}

/// The whole per-host fan-in: given, for every port, the outcome each of its
/// `retries + 1` connect attempts would have, return exactly the ports whose
/// attempt sequences succeed, in strictly ascending order.  How the
/// concurrent attempt tasks interleave cannot change the answer.
pub fn scan_host_from_outcomes(ports: &Vec<u16>, outcomes: &Vec<Vec<bool>>, retries: u32) -> (r:
    Vec<u16>)
    requires
        ports@.len() == outcomes@.len(),
        forall|i: int|
            0 <= i < outcomes@.len() ==> (#[trigger] outcomes@[i])@.len() == retries as int + 1,
    ensures
        strictly_ascending(r@),
        forall|p: u16|
            r@.contains(p) <==> exists|i: int|
                0 <= i < ports@.len() && (#[trigger] ports@[i]) == p && crate::backoff::any_success(
                    outcomes@[i]@,
                ),
{
    let mut results: Vec<(u16, bool)> = Vec::new();
    let mut i: usize = 0;
    while i < ports.len()
        invariant
            ports@.len() == outcomes@.len(),
            0 <= i <= ports@.len(),
            forall|j: int|
                0 <= j < outcomes@.len() ==> (#[trigger] outcomes@[j])@.len() == retries as int
                    + 1,
            results@.len() == i,
            forall|j: int|
                0 <= j < i ==> (#[trigger] results@[j]) == (ports@[j], crate::backoff::any_success(
                    outcomes@[j]@,
                )),
        decreases ports@.len() - i,
    {
        let opened = crate::backoff::port_opened(&outcomes[i], retries);
        results.push((ports[i], opened));
        i = i + 1;
    }
    let out = collect_open_ports(&results);
    proof {
        assert forall|p: u16| #[trigger] out@.contains(p) <==> (exists|j: int|
            0 <= j < ports@.len() && (#[trigger] ports@[j]) == p && crate::backoff::any_success(
                outcomes@[j]@,
            )) by {
            if out@.contains(p) {
                let j = choose|j: int|
                    0 <= j < results@.len() && (#[trigger] results@[j]).0 == p && results@[j].1;
                assert(ports@[j] == p && crate::backoff::any_success(outcomes@[j]@));
            }
            if exists|j: int|
                0 <= j < ports@.len() && (#[trigger] ports@[j]) == p && crate::backoff::any_success(
                    outcomes@[j]@,
                ) {
                let j = choose|j: int|
                    0 <= j < ports@.len() && (#[trigger] ports@[j]) == p
                        && crate::backoff::any_success(outcomes@[j]@);
                assert((results@[j]).0 == p && results@[j].1);
                assert(reported_open(results@, p));
            }
        }
    }
    out
}

/// What one target's scan produced, handed to the output sink.  The sink
/// serializes whole records, so concurrently finishing hosts never interleave
/// mid-record; completion order across hosts is deliberately unspecified.
#[derive(Debug, Clone)]
pub struct ScanResult {
    /// The target as given.
    pub target: String,
    /// Open ports, strictly ascending.
    pub open_ports: Vec<u16>,
    /// How many ports were scanned.
    pub scanned: usize,
    /// Start timestamp, as the front end's clock rendered it.
    pub started_at: String,
    /// End timestamp, as the front end's clock rendered it.
    pub ended_at: String,
    /// Wall-clock duration of the scan, in milliseconds.
    pub duration_ms: u64,
}

impl ScanResult {
    /// A record is well formed when its port list is canonical.
    pub open spec fn wf(self) -> bool {
        strictly_ascending(self.open_ports@)
    }
}

} // verus!
