//! How long to wait between two polls.

use vstd::prelude::*;

verus! {

/// The wait before the first repeated poll, in seconds, where no other is set.
pub const DEFAULT_BASE_SECS: u64 = 4;

/// How many polls one run gets where no other number is set.
pub const DEFAULT_MAX_ATTEMPTS: u32 = 11;

/// `4` to the power of `n`.
pub open spec fn pow4(n: nat) -> nat
    decreases n,
{
    if n == 0 {
        1
    } else {
        4 * pow4((n - 1) as nat)
    }
}

/// The wait after the poll with number `attempt`, counted from zero: the base
/// interval, four times as long with each poll, and never more than `u64::MAX`
/// seconds.
pub open spec fn backoff_delay(base_secs: u64, attempt: nat) -> int {
    if base_secs * pow4(attempt) > u64::MAX {
        u64::MAX as int
    } else {
        base_secs * pow4(attempt)
    }
}

/// The wait grows with the number of the poll.
pub proof fn lemma_backoff_grows(base_secs: u64, earlier: nat, later: nat)
    requires
        earlier <= later,
    ensures
        base_secs * pow4(earlier) <= base_secs * pow4(later),
        backoff_delay(base_secs, earlier) <= backoff_delay(base_secs, later),
    decreases later - earlier,
{
    if earlier < later {
        lemma_backoff_grows(base_secs, earlier, (later - 1) as nat);
        assert(base_secs * pow4((later - 1) as nat) <= base_secs * pow4(later)) by (nonlinear_arith)
            requires
                pow4(later) == 4 * pow4((later - 1) as nat),
        ;
    }
}

/// Exponential backoff from a base interval.
#[derive(Debug, Clone, Copy, PartialEq, Eq)]
pub struct BackoffPolicy {
    pub base_secs: u64,
}

impl BackoffPolicy {
    /// The policy that starts from `base_secs` seconds.
    pub fn new(base_secs: u64) -> (policy: BackoffPolicy)
        ensures
            policy.base_secs == base_secs,
    {
        BackoffPolicy { base_secs }
    }

    /// The seconds to wait after the poll with number `attempt`, counted from
    /// zero.
    pub fn delay(&self, attempt: u32) -> (secs: u64)
        ensures
            secs == backoff_delay(self.base_secs, attempt as nat),
    {
        let base = self.base_secs;
        if base == 0 {
            assert(base * pow4(attempt as nat) == 0) by (nonlinear_arith)
                requires
                    base == 0,
            ;
            return 0;
        }
        let mut secs: u64 = base;
        let mut done: u32 = 0;
        assert(base * pow4(0) == base) by (nonlinear_arith)
            requires
                pow4(0) == 1,
        ;
        while done < attempt
            invariant
                base == self.base_secs,
                done <= attempt,
                secs == base * pow4(done as nat),
            decreases attempt - done,
        {
            assert(base * pow4((done + 1) as nat) == 4 * (base * pow4(done as nat)))
                by (nonlinear_arith)
                requires
                    pow4((done + 1) as nat) == 4 * pow4(done as nat),
            ;
            if secs > u64::MAX / 4 {
                proof {
                    lemma_backoff_grows(base, (done + 1) as nat, attempt as nat);
                }
                return u64::MAX;
            }
            secs = secs * 4;
            done += 1;
        }
        secs
    }
}

impl Default for BackoffPolicy {
    fn default() -> (policy: BackoffPolicy)
        ensures
            policy.base_secs == DEFAULT_BASE_SECS,
    {
        BackoffPolicy { base_secs: DEFAULT_BASE_SECS }
    }
}

} // verus!
