//! Best-effort name resolution: up to `retries + 1` lookup attempts, the
//! first address found wins, and when every attempt misses the original host
//! string is returned unchanged — resolution failure is never an error.
//!
//! The lookups themselves are network work done by the unverified front end;
//! it feeds each attempt's outcome (the first address's text, if any) into
//! the step function here and sleeps the configured delay when told to.

use vstd::prelude::*;

verus! {

/// What the resolver does after one lookup attempt.
#[derive(Debug, Clone)]
pub enum ResolveDecision {
    /// Settle on this address (a found one, or the host itself) and stop.
    Done { address: String },
    /// Sleep the configured delay, if any, then look up again.
    RetryAfterDelay,
}

/// The address the resolver settles on, given each lookup attempt's outcome:
/// the first hit, or the host itself if every attempt misses.
pub open spec fn resolved_address(host: Seq<char>, hits: Seq<Option<String>>) -> Seq<char>
    decreases hits.len(),
{
    if hits.len() == 0 {
        host
    } else {
        match hits[0] {
            Some(a) => a@,
            None => resolved_address(host, hits.drop_first()),
        }
    }
}

/// How many lookups are performed: all up to and including the first hit, or
/// every one of them when all miss.  A delay is slept after each miss except
/// the last attempt's, so the number of sleeps is always one less.
pub open spec fn lookups_used(hits: Seq<Option<String>>) -> int
    decreases hits.len(),
{
    if hits.len() == 0 {
        0
    } else {
        match hits[0] {
            Some(a) => 1,
            None => 1 + lookups_used(hits.drop_first()),
        }
    }
}

/// Decide after lookup attempt `attempt` (0-based) returned `found`.
pub fn resolve_step(host: &str, attempt: u32, retries: u32, found: Option<String>) -> (r:
    ResolveDecision)
    ensures
        ({
            match found {
                Some(a) => r == (ResolveDecision::Done { address: a }),
                None => if attempt < retries {
                    r == ResolveDecision::RetryAfterDelay
                } else {
                    r matches ResolveDecision::Done { address } && address@ == host@
                },
            }
        }),
{
    match found {
        Some(a) => ResolveDecision::Done { address: a },
        None => {
            if attempt < retries {
                ResolveDecision::RetryAfterDelay
            } else {
                ResolveDecision::Done { address: host.to_owned() }
            }
        },
    }
}

/// Resolution law, all lookups missing: the host comes back unchanged and
/// every one of the `retries + 1` attempts is made.
pub proof fn lemma_resolve_all_miss(host: Seq<char>, hits: Seq<Option<String>>)
    requires
        forall|i: int| 0 <= i < hits.len() ==> (#[trigger] hits[i]) is None,
    ensures
        resolved_address(host, hits) == host,
        lookups_used(hits) == hits.len(),
    decreases hits.len(),
{
    if hits.len() > 0 {
        assert(hits[0] is None);
        lemma_resolve_all_miss(host, hits.drop_first());
    }
}

/// Resolution law, first hit at attempt `k`: that address is used at once
/// and exactly `k + 1` lookups are made.
pub proof fn lemma_resolve_first_hit(host: Seq<char>, hits: Seq<Option<String>>, k: int)
    requires
        0 <= k < hits.len(),
        hits[k] is Some,
        forall|i: int| 0 <= i < k ==> (#[trigger] hits[i]) is None,
    ensures
        resolved_address(host, hits) == hits[k]->0@,
        lookups_used(hits) == k + 1,
    decreases k,
{
    if k == 0 {
    } else {
        assert(hits[0] is None);
        lemma_resolve_first_hit(host, hits.drop_first(), k - 1);
    }
}

/// The whole resolution sequence as one pure function: given the outcome of
/// each of the `retries + 1` lookup attempts, return the address settled on
/// and how many lookups were made (the first hit ends the sequence early).
pub fn resolve_from_outcomes(host: &str, hits: &Vec<Option<String>>, retries: u32) -> (r: (
    String,
    u32,
))
    requires
        retries < u32::MAX,
        hits@.len() == retries as int + 1,
    ensures
        r.0@ == resolved_address(host@, hits@),
        r.1 as int == lookups_used(hits@),
        1 <= r.1 <= retries + 1,
{
    let mut attempt: u32 = 0;
    loop
        invariant
            attempt <= retries < u32::MAX,
            hits@.len() == retries as int + 1,
            forall|i: int| 0 <= i < attempt ==> (#[trigger] hits@[i]) is None,
        decreases retries - attempt,
    {
        match &hits[attempt as usize] {
            Some(a) => {
                proof {
                    lemma_resolve_first_hit(host@, hits@, attempt as int);
                }
                return (a.clone(), attempt + 1);
            },
            None => {
                if attempt >= retries {
                    proof {
                        lemma_resolve_all_miss(host@, hits@);
                    }
                    return (host.to_owned(), attempt + 1);
                }
                attempt = attempt + 1;
            },
        }
    }
}

} // verus!
