//! Counting the examples that passed and failed.

use vstd::prelude::*;

verus! {

/// Number of passing and failing examples.
#[derive(Clone, Copy, Debug, PartialEq, Eq, Structural)]
pub struct RunOutcomes {
    pub passes: usize,
    pub fails: usize,
}

/// Whether an exit status counts as a pass: only the exit code 0 does. A
/// missing code (the process was ended by a signal) counts as a failure.
pub open spec fn exit_is_pass(code: Option<i32>) -> bool {
    code == Some(0i32)
}

/// Two pairs of counts, passes and fails, added up.
pub open spec fn sum_of(a: (int, int), b: (int, int)) -> (int, int) {
    (a.0 + b.0, a.1 + b.1)
}

impl RunOutcomes {
    /// The counts: passes, then fails.
    pub open spec fn counts(self) -> (int, int) {
        (self.passes as int, self.fails as int)
    }

    /// The number of examples that ran.
    pub open spec fn total(self) -> int {
        self.passes + self.fails
    }

    /// Create new: nothing ran yet.
    pub fn new() -> (r: Self)
        ensures
            r.passes == 0,
            r.fails == 0,
    {
        Self { passes: 0, fails: 0 }
    }

    /// Add the counts of `other` to `self`.
    pub fn add(&mut self, other: &RunOutcomes)
        requires
            old(self).passes + other.passes <= usize::MAX,
            old(self).fails + other.fails <= usize::MAX,
        ensures
            final(self).counts() == sum_of(old(self).counts(), other.counts()),
    {
        self.passes += other.passes;
        self.fails += other.fails;
    }

    /// Count one run by its exit code.
    pub fn record(&mut self, code: Option<i32>)
        requires
            old(self).passes < usize::MAX,
            old(self).fails < usize::MAX,
        ensures
            final(self).counts() == sum_of(
                old(self).counts(),
                if exit_is_pass(code) {
                    (1, 0)
                } else {
                    (0, 1)
                },
            ),
    {
        match code {
            Some(0) => {
                self.passes += 1;
            },
            _ => {
                self.fails += 1;
            },
        }
    }

    /// Whether the whole run succeeded: at least one example ran and none
    /// failed.
    pub fn is_success(&self) -> (ok: bool)
        ensures
            ok == (self.total() > 0 && self.fails == 0),
    {
        self.passes > 0 && self.fails == 0
    }
}

/// Counts add up to the same totals in whatever order and grouping they are
/// combined, and adding counts of nothing changes nothing.
pub proof fn lemma_sum_of_counts(a: (int, int), b: (int, int), c: (int, int))
    ensures
        sum_of(a, b) == sum_of(b, a),
        sum_of(sum_of(a, b), c) == sum_of(a, sum_of(b, c)),
        sum_of(a, (0, 0)) == a,
{
}

} // verus!
