//! The rate limiter's decision rules: a bounded permit count and a
//! start-to-start pacing rule, as one sequential model. The concurrent
//! runtime drives one shared copy of this model through atomic updates; each
//! transition below is what a single successful update does.

use vstd::prelude::*;

verus! {

/// What a waiter should do next: wait for the given number of nanoseconds,
/// or start now.
#[derive(Copy, Clone, PartialEq, Eq, Structural, Debug)]
pub enum PacingDecision {
    Wait(u64),
    Start,
}

/// Permit accounting and pacing state for throttled operations, with the
/// history of admitted starts carried along as ghost state.
pub struct RateLimit {
    total_permits: usize,
    cooldown_nanos: u64,
    available: usize,
    last_start: u64,
    starts: Ghost<Seq<u64>>,
}

impl RateLimit {
    pub closed spec fn capacity(&self) -> usize {
        self.total_permits
    }

    pub closed spec fn cooldown(&self) -> u64 {
        self.cooldown_nanos
    }

    pub closed spec fn permits_available(&self) -> usize {
        self.available
    }

    pub closed spec fn last_start_nanos(&self) -> u64 {
        self.last_start
    }

    /// Every start this limiter has admitted, in admission order.
    pub closed spec fn starts_trace(&self) -> Seq<u64> {
        self.starts@
    }

    /// Permits never outnumber the capacity; the admitted starts are paced,
    /// and the recorded last start is the latest of them.
    pub open spec fn wf(&self) -> bool {
        &&& self.permits_available() <= self.capacity()
        &&& spaced(self.starts_trace(), self.cooldown())
        &&& if self.starts_trace().len() == 0 {
            self.last_start_nanos() == 0
        } else {
            self.last_start_nanos() == self.starts_trace().last()
        }
    }

    /// How many operations hold a permit right now.
    pub open spec fn in_flight(&self) -> int {
        self.capacity() - self.permits_available()
    }

    /// A fresh limiter: all permits free, no start recorded yet.
    pub fn new(permits: usize, cool_down_nanos: u64) -> (r: RateLimit)
        ensures
            r.wf(),
            r.capacity() == permits,
            r.cooldown() == cool_down_nanos,
            r.permits_available() == permits,
            r.last_start_nanos() == 0,
            r.starts_trace() == Seq::<u64>::empty(),
    {
        RateLimit {
            total_permits: permits,
            cooldown_nanos: cool_down_nanos,
            available: permits,
            last_start: 0,
            starts: Ghost(Seq::empty()),
        }
    }

    /// How many operations may ever run at once; callers size their fan-out
    /// to it.
    pub fn max_sync_usages(&self) -> (r: usize)
        ensures
            r == self.capacity(),
    {
        self.total_permits
    }

    /// Take a permit if one is free: succeeds exactly when fewer than
    /// `capacity` operations are in flight.
    pub fn try_acquire(&mut self) -> (r: bool)
        requires
            old(self).wf(),
        ensures
            final(self).wf(),
            final(self).capacity() == old(self).capacity(),
            final(self).cooldown() == old(self).cooldown(),
            final(self).last_start_nanos() == old(self).last_start_nanos(),
            final(self).starts_trace() == old(self).starts_trace(),
            r == (old(self).permits_available() > 0),
            r ==> final(self).permits_available() == old(self).permits_available() - 1,
            r ==> old(self).in_flight() < old(self).capacity(),
            !r ==> final(self).permits_available() == old(self).permits_available(),
    {
        if self.available > 0 {
            self.available = self.available - 1;
            true
        } else {
            false
        }
    }

    /// Hand a permit back when its operation completes or is abandoned.
    pub fn release(&mut self)
        requires
            old(self).wf(),
            old(self).permits_available() < old(self).capacity(),
        ensures
            final(self).wf(),
            final(self).capacity() == old(self).capacity(),
            final(self).cooldown() == old(self).cooldown(),
            final(self).last_start_nanos() == old(self).last_start_nanos(),
            final(self).starts_trace() == old(self).starts_trace(),
            final(self).permits_available() == old(self).permits_available() + 1,
    {
        self.available = self.available + 1;
    }

    /// One pacing round at time `now`: start only when a full cooldown has
    /// passed since the last recorded start, and record the new start;
    /// otherwise report exactly the remaining wait and change nothing.
    pub fn pacing_step(&mut self, now: u64) -> (r: PacingDecision)
        requires
            old(self).wf(),
            old(self).last_start_nanos() + old(self).cooldown() <= u64::MAX,
        ensures
            final(self).wf(),
            final(self).capacity() == old(self).capacity(),
            final(self).cooldown() == old(self).cooldown(),
            final(self).permits_available() == old(self).permits_available(),
            match r {
                PacingDecision::Start => {
                    &&& now as int >= old(self).last_start_nanos() + old(self).cooldown()
                    &&& final(self).last_start_nanos() == now
                    &&& final(self).starts_trace() == old(self).starts_trace().push(now)
                },
                PacingDecision::Wait(remaining) => {
                    &&& (now as int) < old(self).last_start_nanos() + old(self).cooldown()
                    &&& remaining as int == old(self).last_start_nanos() + old(self).cooldown()
                        - now
                    &&& final(self).last_start_nanos() == old(self).last_start_nanos()
                    &&& final(self).starts_trace() == old(self).starts_trace()
                },
            },
    {
        if now >= self.cooldown_nanos && now - self.cooldown_nanos >= self.last_start {
            self.last_start = now;
            proof {
                let ghost prior = self.starts@;
                assert forall|i: int| #![trigger prior.push(now)[i]]
                    0 <= i < prior.push(now).len() - 1 implies prior.push(now)[i + 1] as int
                    >= prior.push(now)[i] + self.cooldown_nanos by {
                    if i < prior.len() - 1 {
                        assert(prior[i + 1] as int >= prior[i] + self.cooldown_nanos);
                    }
                }
            }
            self.starts = Ghost(self.starts@.push(now));
            PacingDecision::Start
        } else {
            let target = self.last_start + self.cooldown_nanos;
            PacingDecision::Wait(target - now)
        }
    }
}

/// The decision one waiter makes against an observed last start: start only
/// when a full cooldown has passed, else wait out exactly the remainder. A
/// concurrent runtime re-reads the shared last start and retries whenever
/// another waiter won the update.
pub fn pacing_decision(last: u64, cooldown: u64, now: u64) -> (r: PacingDecision)
    requires
        last + cooldown <= u64::MAX,
    ensures
        match r {
            PacingDecision::Start => now >= last + cooldown,
            PacingDecision::Wait(remaining) => now < last + cooldown && remaining == last
                + cooldown - now,
        },
{
    if now >= cooldown && now - cooldown >= last {
        PacingDecision::Start
    } else {
        PacingDecision::Wait(last + cooldown - now)
    }
}

/// Each start in the trace follows the one before it by at least the
/// cooldown.
pub open spec fn spaced(starts: Seq<u64>, cooldown: u64) -> bool {
    forall|i: int| #![trigger starts[i]]
        0 <= i < starts.len() - 1 ==> starts[i + 1] as int >= starts[i] + cooldown
}

/// Any two starts a well-formed limiter has admitted lie at least a full
/// cooldown apart, and more generally one cooldown per step between them.
pub proof fn lemma_admitted_starts_spaced(rl: RateLimit, i: int, j: int)
    requires
        rl.wf(),
        0 <= i <= j < rl.starts_trace().len(),
    ensures
        rl.starts_trace()[j] as int >= rl.starts_trace()[i] + rl.cooldown() * (j - i),
{
    lemma_start_spacing(rl.starts_trace(), rl.cooldown(), i, j);
}

/// Pacing bounds every pair of starts, not only neighbours: the i-th and
/// j-th starts of a paced trace lie at least `(j - i)` cooldowns apart, so
/// any two distinct starts differ by at least one cooldown.
pub proof fn lemma_start_spacing(starts: Seq<u64>, cooldown: u64, i: int, j: int)
    requires
        spaced(starts, cooldown),
        0 <= i <= j < starts.len(),
    ensures
        starts[j] as int >= starts[i] + cooldown * (j - i),
    decreases j - i,
{
    if i < j {
        lemma_start_spacing(starts, cooldown, i, j - 1);
        let a = starts[i] as int;
        let b = starts[j - 1] as int;
        let c = starts[j] as int;
        assert(starts[(j - 1) + 1] as int >= starts[j - 1] + cooldown);
        assert(c >= b + cooldown);
        assert(c >= a + cooldown * (j - i)) by (nonlinear_arith)
            requires
                b >= a + cooldown * (j - 1 - i),
                c >= b + cooldown,
                i < j,
        ;
    } else {
        assert(cooldown * (j - i) == 0) by (nonlinear_arith)
            requires
                i == j,
        ;
    }
}

} // verus!
