//! Bounded retry for secondary path discovery.
//!
//! A physical attach notification can arrive before the OS driver has
//! finished creating the device's secondary data-path node (a serial TTY
//! special file).  Discovery probes for the path up to a fixed bound of
//! attempts at a fixed interval; exhaustion is not an error but the expected
//! outcome for devices without such a node (keyboards, hubs), which are then
//! reported by their primary identifier alone.
//!
//! Probing itself reads the device tree and sleeps, so the surrounding
//! process performs it; the decision after each probe -- stop with the path,
//! wait one interval and try again, or give up -- is made here, and the
//! number of waits is proved bounded.

use vstd::prelude::*;

verus! {

/// The fixed retry schedule for one discovery.
#[derive(Debug, Clone, Copy, PartialEq, Eq, Structural)]
pub struct RetryPolicy {
    /// How many times a failed probe may be retried.
    pub max_attempts: u32,
    /// Milliseconds to wait between consecutive probes.
    pub interval_ms: u32,
}

impl RetryPolicy {
    /// The schedule used for secondary path discovery: ten retries, a tenth
    /// of a second apart.
    pub fn standard() -> (p: RetryPolicy)
        ensures
            p == (RetryPolicy { max_attempts: 10u32, interval_ms: 100u32 }),
    {
        RetryPolicy { max_attempts: 10, interval_ms: 100 }
    }
}

/// What the caller must do after a probe.
#[derive(Debug)]
pub enum RetryDecision {
    /// A secondary path appeared: use it.
    Found(String),
    /// Nothing yet: wait this many milliseconds and probe again.
    RetryAfter(u32),
    /// The bound is exhausted.  Not an error: the device has no secondary
    /// path and is reported using only its primary identifier.
    GiveUp,
}

/// One in-progress discovery.  Each failed probe consumes one remaining
/// retry; `observe` is the single step of the loop the caller runs.
#[derive(Debug)]
pub struct RetrySession {
    policy: RetryPolicy,
    remaining: u32,
}

impl RetrySession {
    /// The schedule this session was started with.
    pub closed spec fn policy(&self) -> RetryPolicy {
        self.policy
    }

    /// How many retries are still allowed.
    pub closed spec fn remaining(&self) -> u32 {
        self.remaining
    }

    /// Start a discovery under the given schedule.
    pub fn new(policy: RetryPolicy) -> (s: Self)
        ensures
            s.policy() == policy,
            s.remaining() == policy.max_attempts,
    {
        RetrySession { policy, remaining: policy.max_attempts }
    }

    /// Decide after one probe: a found path ends the search at once; a
    /// failed probe waits one interval while retries remain, and gives up --
    /// returning no path, not an error -- once they are spent.  This is the
    /// step the spec-level `retry_outcome` and `retry_sleeps` take, so the
    /// bound proved of them is the bound of the loop that calls this.
    pub fn observe(&mut self, probe: Option<String>) -> (d: RetryDecision)
        ensures
            final(self).policy() == old(self).policy(),
            ({
                match probe {
                    Some(p) => {
                        &&& d matches RetryDecision::Found(q) && q == p
                        &&& final(self).remaining() == old(self).remaining()
                    },
                    None => {
                        if old(self).remaining() > 0 {
                            &&& d matches RetryDecision::RetryAfter(ms) && ms == old(
                                self,
                            ).policy().interval_ms
                            &&& final(self).remaining() == old(self).remaining() - 1
                        } else {
                            &&& d is GiveUp
                            &&& final(self).remaining() == 0
                        }
                    },
                }
            }),
    {
        match probe {
            Some(p) => RetryDecision::Found(p),
            None => {
                if self.remaining > 0 {
                    self.remaining = self.remaining - 1;
                    RetryDecision::RetryAfter(self.policy.interval_ms)
                } else {
                    RetryDecision::GiveUp
                }
            },
        }
    }
}

/// The path a discovery ends with, given the probe results in the order the
/// loop would see them: the first present result within the bound, if any.
pub open spec fn retry_outcome(remaining: nat, probes: Seq<Option<String>>) -> Option<String>
    decreases probes.len(),
{
    if probes.len() == 0 {
        None
    } else {
        match probes[0] {
            Some(p) => Some(p),
            None => {
                if remaining == 0 {
                    None
                } else {
                    retry_outcome((remaining - 1) as nat, probes.drop_first())
                }
            },
        }
    }
}

/// How many intervals the discovery waits for those probe results.
pub open spec fn retry_sleeps(remaining: nat, probes: Seq<Option<String>>) -> nat
    decreases probes.len(),
{
    if probes.len() == 0 {
        0
    } else {
        match probes[0] {
            Some(p) => 0,
            None => {
                if remaining == 0 {
                    0
                } else {
                    1 + retry_sleeps((remaining - 1) as nat, probes.drop_first())
                }
            },
        }
    }
}

/// Retry bound: however the probes turn out, a discovery started with a
/// budget of `remaining` retries waits at most `remaining` intervals -- so
/// the loop returns within `max_attempts` times the interval of wall-clock
/// waiting -- and when every probe fails it ends with no path, not an error.
pub proof fn lemma_retry_bounded(remaining: nat, probes: Seq<Option<String>>)
    ensures
        retry_sleeps(remaining, probes) <= remaining,
        (forall|i: int| 0 <= i < probes.len() ==> probes[i] is None) ==> retry_outcome(
            remaining,
            probes,
        ) is None,
    decreases probes.len(),
{
    if probes.len() > 0 {
        match probes[0] {
            Some(p) => {},
            None => {
                if remaining > 0 {
                    lemma_retry_bounded((remaining - 1) as nat, probes.drop_first());
                    if forall|j: int| 0 <= j < probes.len() ==> probes[j] is None {
                        assert forall|i: int|
                            0 <= i < probes.drop_first().len() implies probes.drop_first()[i]
                            is None by {
                            assert(probes[i + 1] is None);
                        }
                    }
                }
            },
        }
    }
}

} // verus!
