//! The write-stability gate: an arrival is declared only after the
//! watched file's size repeats across two consecutive polls, within a
//! bounded number of attempts; otherwise the wait times out for that
//! path alone. The poller that sleeps and reads sizes stands outside
//! the library.

use vstd::prelude::*;

verus! {

/// Why the stability wait failed.
#[derive(Clone, Copy, Debug, PartialEq, Eq, Structural)]
pub enum StabilityError {
    /// The attempt bound was reached without two consecutive equal sizes.
    StabilityTimeout,
}

/// What one observation decided.
#[derive(Clone, Copy, Debug, PartialEq, Eq, Structural)]
pub enum GateVerdict {
    /// The size matched the previous poll: the file is stable.
    Stable,
    /// Not stable yet; keep polling.
    Pending,
    /// Not stable, and the attempt bound is now spent.
    TimedOut,
}

/// The per-path stability state machine.
pub struct StabilityGate {
    max_attempts: u64,
    used: u64,
    last: Option<u64>,
}

impl StabilityGate {
    /// The attempt bound this gate enforces.
    pub closed spec fn attempts_max(self) -> u64 {
        self.max_attempts
    }

    /// The number of polls so far.
    pub closed spec fn attempts_used(self) -> u64 {
        self.used
    }

    /// The size seen by the most recent observation, if any.
    pub closed spec fn last_size(self) -> Option<u64> {
        self.last
    }

    /// A fresh gate that will accept up to `max_attempts` observations.
    pub fn new(max_attempts: u64) -> (g: StabilityGate)
        ensures
            g.attempts_max() == max_attempts,
            g.attempts_used() == 0,
            g.last_size() is None,
    {
        StabilityGate { max_attempts, used: 0, last: None }
    }

    /// Feed one size observation. Stable exactly when the size equals the
    /// previous observation; timed out exactly when it does not and this
    /// observation spends the attempt bound.
    pub fn observe(&mut self, size: u64) -> (v: GateVerdict)
        requires
            old(self).attempts_used() < old(self).attempts_max(),
        ensures
            final(self).attempts_max() == old(self).attempts_max(),
            final(self).attempts_used() == old(self).attempts_used() + 1,
            final(self).last_size() == Some(size),
            v == GateVerdict::Stable <==> old(self).last_size() == Some(size),
            v == GateVerdict::TimedOut <==> old(self).last_size() != Some(size) && old(
                self,
            ).attempts_used() + 1 == old(self).attempts_max(),
    {
        let stable = match self.last {
            Some(prev) => prev == size,
            None => false,
        };
        self.used = self.used + 1;
        self.last = Some(size);
        if stable {
            GateVerdict::Stable
        } else if self.used == self.max_attempts {
            GateVerdict::TimedOut
        } else {
            GateVerdict::Pending
        }
    }
}

/// The first index at or after `i` whose size equals its predecessor.
pub open spec fn first_stable_from(sizes: Seq<u64>, i: int) -> Option<int>
    decreases sizes.len() - i,
    when i >= 1
{
    if i >= sizes.len() {
        None
    } else if sizes[i] == sizes[i - 1] {
        Some(i)
    } else {
        first_stable_from(sizes, i + 1)
    }
}

/// A found index is in range and marks two consecutive equal sizes.
pub proof fn lemma_first_stable_from_bounds(sizes: Seq<u64>, i: int)
    requires
        i >= 1,
    ensures
        first_stable_from(sizes, i) matches Some(k) ==> i <= k < sizes.len() && sizes[k]
            == sizes[k - 1],
    decreases sizes.len() - i,
{
    if i < sizes.len() && sizes[i] != sizes[i - 1] {
        lemma_first_stable_from_bounds(sizes, i + 1);
    }
}

/// Decide stability over a sequence of successive size observations:
/// `Ok(k)` exactly when observation `k` is the first to repeat its
/// predecessor and falls within the attempt bound; the timeout error
/// exactly otherwise. Only the first `max_attempts` observations count.
pub fn wait_until_stable_size(sizes: &Vec<u64>, max_attempts: u64) -> (r: Result<
    usize,
    StabilityError,
>)
    ensures
        match r {
            Ok(k) => 1 <= k < sizes@.len() && k < max_attempts && first_stable_from(sizes@, 1)
                == Some(k as int),
            Err(e) => e == StabilityError::StabilityTimeout && (match first_stable_from(sizes@, 1) {
                Some(w) => w >= max_attempts,
                None => true,
            }),
        },
{
    let n = sizes.len();
    let mut i: usize = 1;
    while i < n
        invariant
            1 <= i,
            n == sizes@.len() <= usize::MAX,
            first_stable_from(sizes@, 1) == first_stable_from(sizes@, i as int),
        decreases n - i,
    {
        if i as u64 >= max_attempts {
            proof {
                lemma_first_stable_from_bounds(sizes@, i as int);
            }
            return Err(StabilityError::StabilityTimeout);
        }
        if sizes[i] == sizes[i - 1] {
            return Ok(i);
        }
        i = i + 1;
    }
    Err(StabilityError::StabilityTimeout)
}

} // verus!
