//! Concurrency budgets: counting permit pools that bound in-flight connection
//! attempts, one shared across the whole run and one per host.
//!
//! A budget is a pair of counters.  Every connection attempt acquires a permit
//! before connecting and releases it unconditionally afterwards; backpressure
//! is a refused `try_acquire`, never an error.  The law proved at the bottom
//! states that no sequence of acquires and releases can push the in-flight
//! count above the configured limit.

use vstd::prelude::*;

verus! {

/// A counting permit pool with a fixed limit.
pub struct Budget {
    /// Maximum number of permits out at once.
    pub limit: usize,
    /// Permits currently out.
    pub in_flight: usize,
}

/// One operation on a budget.
#[derive(Debug, Clone, Copy, PartialEq, Eq, Structural)]
pub enum BudgetOp {
    Acquire,
    Release,
}

/// Guarded counter semantics of one budget operation: a refused acquire and a
/// release of nothing both leave the count unchanged.
pub open spec fn apply_op(limit: int, count: int, op: BudgetOp) -> int {
    match op {
        BudgetOp::Acquire => if count < limit {
            count + 1
        } else {
            count
        },
        BudgetOp::Release => if count > 0 {
            count - 1
        } else {
            count
        },
    }
}

/// The count after a whole sequence of operations.
pub open spec fn apply_ops(limit: int, count: int, ops: Seq<BudgetOp>) -> int
    decreases ops.len(),
{
    if ops.len() == 0 {
        count
    } else {
        apply_op(limit, apply_ops(limit, count, ops.drop_last()), ops.last())
    }
}

impl Budget {
    /// The budget's invariant: never more permits out than the limit allows.
    pub open spec fn wf(self) -> bool {
        self.in_flight <= self.limit
    }

    /// A fresh budget with `limit` permits, none out.  A zero limit would
    /// allow no progress at all; configuration validation rejects it first.
    pub fn new(limit: usize) -> (r: Budget)
        requires
            limit >= 1,
        ensures
            r.wf(),
            r.limit == limit,
            r.in_flight == 0,
    {
        Budget { limit, in_flight: 0 }
    }

    /// Take a permit if one is free; refusal is backpressure, not an error.
    pub fn try_acquire(&mut self) -> (granted: bool)
        ensures
            final(self).limit == old(self).limit,
            granted == (old(self).in_flight < old(self).limit),
            final(self).in_flight as int == apply_op(
                old(self).limit as int,
                old(self).in_flight as int,
                BudgetOp::Acquire,
            ),
            old(self).wf() ==> final(self).wf(),
    {
        if self.in_flight < self.limit {
            self.in_flight = self.in_flight + 1;
            true
        } else {
            false
        }
    }

    /// Give a permit back; callers release exactly what they acquired.
    pub fn release(&mut self)
        requires
            old(self).in_flight >= 1,
        ensures
            final(self).limit == old(self).limit,
            final(self).in_flight as int == apply_op(
                old(self).limit as int,
                old(self).in_flight as int,
                BudgetOp::Release,
            ),
            old(self).wf() ==> final(self).wf(),
    {
        self.in_flight = self.in_flight - 1;
    }
}

/// Acquire a per-host permit and then a global permit for one connection
/// attempt, taking neither unless both are free.
pub fn try_acquire_pair(host: &mut Budget, global: &mut Budget) -> (granted: bool)
    ensures
        final(host).limit == old(host).limit,
        final(global).limit == old(global).limit,
        granted == (old(host).in_flight < old(host).limit && old(global).in_flight < old(
            global,
        ).limit),
        granted ==> final(host).in_flight == old(host).in_flight + 1 && final(global).in_flight
            == old(global).in_flight + 1,
        !granted ==> *final(host) == *old(host) && *final(global) == *old(global),
        old(host).wf() ==> final(host).wf(),
        old(global).wf() ==> final(global).wf(),
{
    if host.try_acquire() {
        if global.try_acquire() {
            true
        } else {
            host.release();
            false
        }
    } else {
        false
    }
}

/// Release the pair taken by [`try_acquire_pair`], unconditionally on every
/// exit path of an attempt (success, failure, or timeout).
pub fn release_pair(host: &mut Budget, global: &mut Budget)
    requires
        old(host).in_flight >= 1,
        old(global).in_flight >= 1,
    ensures
        final(host).limit == old(host).limit,
        final(global).limit == old(global).limit,
        final(host).in_flight == old(host).in_flight - 1,
        final(global).in_flight == old(global).in_flight - 1,
        old(host).wf() ==> final(host).wf(),
        old(global).wf() ==> final(global).wf(),
{
    global.release();
    host.release();
}

/// Budget safety law: starting within the limit, no sequence of acquires and
/// releases ever drives the in-flight count above the limit or below zero —
/// at no prefix of the run, hence at no instant, is the budget exceeded.
pub proof fn lemma_budget_never_exceeded(limit: int, count: int, ops: Seq<BudgetOp>, k: int)
    requires
        0 <= count <= limit,
        0 <= k <= ops.len(),
    ensures
        0 <= apply_ops(limit, count, ops.take(k)) <= limit,
    decreases k,
{
    if k == 0 {
        assert(ops.take(0) =~= Seq::<BudgetOp>::empty());
    } else {
        lemma_budget_never_exceeded(limit, count, ops, k - 1);
        assert(ops.take(k).drop_last() =~= ops.take(k - 1));
        assert(ops.take(k).last() == ops[k - 1]);
    }
}

} // verus!
