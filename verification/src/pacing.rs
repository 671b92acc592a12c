//! Pacing of page requests: a token bucket with burst capacity one.
//!
//! Requests are strictly serialized and spaced at least one fixed period
//! apart, bounding the load on the upstream API. The pacer itself never
//! sleeps: [`Pacer::acquire`] answers the instant at which the caller may
//! proceed, and the surrounding loop waits until that instant before sending
//! the request.

use vstd::prelude::*;

verus! {

/// Default pacing period between page requests, in milliseconds.
pub const DEFAULT_RATE: u64 = 2000;

/// A token-bucket rate limiter with one permit per period and burst capacity
/// one. Time is whatever the caller's clock counts (the pipeline uses
/// milliseconds); only its ordering and differences matter here.
pub struct Pacer {
    /// The minimum time between grants.
    pub period: u64,
    /// The earliest instant at which the next grant may take effect.
    pub next_free: u64,
}

impl Pacer {
    /// A pacer whose first grant is immediate.
    pub fn new(period: u64) -> (p: Pacer)
        ensures
            p.period == period,
            p.next_free == 0,
    {
        Pacer { period, next_free: 0 }
    }

    /// Request a slot at time `now`. The grant takes effect at `now` itself
    /// or at the earliest free instant, whichever is later, and the next
    /// grant is pushed one period past this one — so successive grants are
    /// always at least one period apart.
    pub fn acquire(&mut self, now: u64) -> (grant: u64)
        requires
            now + old(self).period <= u64::MAX,
            old(self).next_free + old(self).period <= u64::MAX,
        ensures
            grant == if now >= old(self).next_free {
                now
            } else {
                old(self).next_free
            },
            grant >= now,
            grant >= old(self).next_free,
            final(self).period == old(self).period,
            final(self).next_free == grant + old(self).period,
    {
        let grant = if now >= self.next_free {
            now
        } else {
            self.next_free
        };
        self.next_free = grant + self.period;
        grant
    }

    /// How long a caller standing at time `now` has to wait before its next
    /// grant can take effect.
    pub fn wait_before(&self, now: u64) -> (w: u64)
        ensures
            w == if now >= self.next_free {
                0int
            } else {
                self.next_free - now
            },
    {
        if now >= self.next_free {
            0
        } else {
            self.next_free - now
        }
    }
}

/// Law: grants spaced at least one period apart span at least the period
/// times one less than their count — issuing `n` page requests paced at
/// interval `t` takes at least `(n - 1) * t` time, regardless of page count.
/// [`Pacer::acquire`] supplies the hypothesis: each grant is at least
/// `next_free`, which the previous grant left one full period ahead of
/// itself.
pub proof fn lemma_paced_span(grants: Seq<int>, period: int)
    requires
        period >= 0,
        grants.len() >= 1,
        forall|i: int| 1 <= i < grants.len() ==> #[trigger] grants[i] >= grants[i - 1] + period,
    ensures
        grants.last() >= grants.first() + (grants.len() - 1) * period,
    decreases grants.len(),
{
    if grants.len() == 1 {
    } else {
        let n = grants.len() as int;
        assert(forall|j: int|
            0 <= j < grants.len() - 1 ==> #[trigger] grants.drop_last()[j] == grants[j]);
        lemma_paced_span(grants.drop_last(), period);
        assert(grants.drop_last().last() == grants[n - 2]);
        assert(grants.drop_last().first() == grants[0]);
        assert(grants[n - 2] >= grants[0] + (n - 2) * period);
        assert(grants[n - 1] >= grants[n - 2] + period);
        assert((n - 2) * period + period == (n - 1) * period) by (nonlinear_arith);
        assert(grants.last() == grants[n - 1]);
        assert(grants.first() == grants[0]);
    }
}

} // verus!
