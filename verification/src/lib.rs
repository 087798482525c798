//! Verified core of a network reconnaissance toolbox: port-specification
//! parsing, token-bucket pacing, retry backoff, concurrency budgets,
//! best-effort name resolution, and host-discovery bookkeeping.
//!
//! The library holds the decision logic of the scanner.  All network I/O is
//! driven by an unverified front end that feeds outcomes (connect results,
//! lookup results, clock readings) into the functions here and performs the
//! actions they return.

pub mod backoff;
pub mod banner;
pub mod budget;
pub mod config;
pub mod creds;
pub mod discovery;
pub mod forensics;
pub mod ports;
pub mod ratelimiter;
pub mod scanner;
pub mod udp;
pub mod web;
pub mod resolver;

use vstd::prelude::*;

verus! {

/// Version string of the library.
pub fn version() -> (r: &'static str)
    ensures
        r@.len() > 0,
{
    proof {
        reveal_strlit("0.1.0");
    }
    "0.1.0"
}

/// An opaque host identifier: hostname, literal IP address, or CIDR block.
#[derive(Debug, Clone)]
pub struct Target(pub String);

impl Target {
    /// Wrap a host string as a target.
    pub fn from_host(s: &str) -> (r: Target)
        ensures
            r.0@ == s@,
    {
        Target(s.to_owned())
    }
}

} // verus!
