//! The process-wide request counter: a 64-bit value that starts at zero and
//! grows by exactly one on every dispatched request.

use vstd::prelude::*;

verus! {

/// The value the counter holds after one more request. The counter wraps at
/// the 64-bit limit rather than fail; in practice it never gets there.
pub open spec fn counter_after(c: u64) -> u64 {
    if c == u64::MAX {
        0
    } else {
        (c + 1) as u64
    }
}

/// The value the counter holds after `n` further requests.
pub open spec fn counter_after_n(c: u64, n: nat) -> u64
    decreases n,
{
    if n == 0 {
        c
    } else {
        counter_after(counter_after_n(c, (n - 1) as nat))
    }
}

/// The shared request counter. The surrounding server holds one instance per
/// process and hands it to the dispatcher by mutable reference; any exclusion
/// needed across concurrent requests is the holder's affair.
#[derive(Clone, Copy, Debug, PartialEq, Eq, Structural)]
pub struct RequestCounter {
    pub value: u64,
}

impl RequestCounter {
    /// A fresh counter at zero, as at process start.
    pub fn new() -> (r: RequestCounter)
        ensures
            r.value == 0,
    {
        RequestCounter { value: 0 }
    }

    /// Adds one and reports the value after the addition.
    pub fn increment(&mut self) -> (r: u64)
        ensures
            final(self).value == counter_after(old(self).value),
            r == final(self).value,
    {
        if self.value == u64::MAX {
            self.value = 0;
        } else {
            self.value = self.value + 1;
        }
        self.value
    }
}

proof fn lemma_counter_linear(c: u64, i: nat)
    requires
        c + i <= u64::MAX,
    ensures
        counter_after_n(c, i) == c + i,
    decreases i,
{
    if i > 0 {
        lemma_counter_linear(c, (i - 1) as nat);
    }
}

/// Serializable increments: as long as the counter does not reach the 64-bit
/// limit, a run of `n` requests starting from value `c` reports `c + 1`
/// through `c + n` in order — the reported values are pairwise distinct and
/// leave no gap above the starting value.
pub proof fn lemma_counter_reports_serializable(c: u64, n: nat)
    requires
        c + n <= u64::MAX,
    ensures
        forall|i: nat| i <= n ==> #[trigger] counter_after_n(c, i) == c + i,
        forall|i: nat, j: nat|
            i < j <= n ==> #[trigger] counter_after_n(c, i) != #[trigger] counter_after_n(c, j),
{
    assert forall|i: nat| i <= n implies #[trigger] counter_after_n(c, i) == c + i by {
        lemma_counter_linear(c, i);
    }
}

} // verus!
