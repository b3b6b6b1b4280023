//! Retry/backoff policy: maps a failed-attempt count to a requeue delay.

use vstd::prelude::*;

verus! {

/// Base requeue delay in seconds.
pub const BASE_DELAY_SECS: u64 = 2;

/// Ceiling for the requeue delay in seconds.
pub const MAX_DELAY_SECS: u64 = 3600;

/// Mathematical power of two.
pub open spec fn pow2(e: nat) -> nat
    decreases e,
{
    if e == 0 {
        1
    } else {
        2 * pow2((e - 1) as nat)
    }
}

/// The delay prescribed after `attempt` observed failures:
/// `min(BASE_DELAY_SECS * 2^attempt, MAX_DELAY_SECS)`.
pub open spec fn spec_next_delay(attempt: nat) -> nat {
    if BASE_DELAY_SECS * pow2(attempt) > MAX_DELAY_SECS {
        MAX_DELAY_SECS as nat
    } else {
        (BASE_DELAY_SECS * pow2(attempt)) as nat
    }
}

proof fn lemma_pow2_mono(a: nat, b: nat)
    requires
        a <= b,
    ensures
        pow2(a) <= pow2(b),
    decreases b,
{
    if a < b {
        lemma_pow2_mono(a, (b - 1) as nat);
    }
}

/// Exponential backoff delay in seconds, saturating at the ceiling.
pub fn next_delay_secs(attempt: u32) -> (r: u64)
    ensures
        r == spec_next_delay(attempt as nat),
        r <= MAX_DELAY_SECS,
{
    if attempt >= 11 {
        proof {
            lemma_pow2_mono(11, attempt as nat);
            reveal_with_fuel(pow2, 12);
            assert(pow2(11) == 2048);
        }
        MAX_DELAY_SECS
    } else {
        let mut d: u64 = BASE_DELAY_SECS;
        let mut i: u32 = 0;
        while i < attempt
            invariant
                i <= attempt < 11,
                d == BASE_DELAY_SECS * pow2(i as nat),
                d <= 2048,
            decreases attempt - i,
        {
            proof {
                lemma_pow2_mono(i as nat, 10);
                reveal_with_fuel(pow2, 11);
                assert(pow2(10) == 1024);
            }
            d = d * 2;
            i = i + 1;
        }
        proof {
            lemma_pow2_mono(i as nat, 10);
            reveal_with_fuel(pow2, 11);
            assert(pow2(10) == 1024);
        }
        d
    }
}

/// The backoff delay never decreases as the attempt count grows, and it is
/// bounded by the configured ceiling even for arbitrarily large counts.
pub proof fn lemma_backoff_monotone_bounded(a: nat, b: nat)
    requires
        a <= b,
    ensures
        spec_next_delay(a) <= spec_next_delay(b),
        spec_next_delay(b) <= MAX_DELAY_SECS,
{
    lemma_pow2_mono(a, b);
}

} // verus!
