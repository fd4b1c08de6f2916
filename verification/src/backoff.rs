//! How long to wait before trying again.

use vstd::arithmetic::power2::{lemma2_to64, lemma_pow2_strictly_increases, lemma_pow2_unfold, pow2};
use vstd::prelude::*;

verus! {

/// The longest wait between two attempts of a call, in milliseconds.
pub const CALL_BACKOFF_CAP_MS: u64 = 500;

/// The longest wait between two attempts of a subscription, in milliseconds.
pub const SUBSCRIBE_BACKOFF_CAP_MS: u64 = 5_000;

/// The wait after the first failure, in milliseconds.
pub const BACKOFF_BASE_MS: u64 = 50;

/// The wait does not double more often than this.
pub const BACKOFF_DOUBLINGS: u32 = 7;

/// The wait in milliseconds after `failures` earlier failures: 50 ms, doubled
/// once for each of them up to the seventh, and never more than `cap_ms`.
pub open spec fn backoff_ms(failures: nat, cap_ms: nat) -> nat {
    let doublings = if failures < BACKOFF_DOUBLINGS {
        failures
    } else {
        BACKOFF_DOUBLINGS as nat
    };
    let ms = BACKOFF_BASE_MS as nat * pow2(doublings);
    if ms < cap_ms {
        ms
    } else {
        cap_ms
    }
}

/// The wait in milliseconds after `failures` earlier failures.
pub fn backoff(failures: u32, cap_ms: u64) -> (ms: u64)
    ensures
        ms == backoff_ms(failures as nat, cap_ms as nat),
{
    let doublings: u32 = if failures < BACKOFF_DOUBLINGS {
        failures
    } else {
        BACKOFF_DOUBLINGS
    };
    let mut ms: u64 = BACKOFF_BASE_MS;
    let mut k: u32 = 0;
    proof {
        lemma2_to64();
    }
    while k < doublings
        invariant
            k <= doublings <= BACKOFF_DOUBLINGS,
            ms == BACKOFF_BASE_MS * pow2(k as nat),
        decreases doublings - k,
    {
        proof {
            lemma2_to64();
            lemma_pow2_unfold((k + 1) as nat);
            if k < 6 {
                lemma_pow2_strictly_increases(k as nat, 6);
            }
        }
        ms = ms * 2;
        k = k + 1;
    }
    if ms < cap_ms {
        ms
    } else {
        cap_ms
    }
}

/// Another failure never shortens the wait.
pub proof fn law_backoff_grows(failures: nat, more: nat, cap_ms: nat)
    requires
        failures <= more,
    ensures
        backoff_ms(failures, cap_ms) <= backoff_ms(more, cap_ms) <= cap_ms,
{
    let low = if failures < BACKOFF_DOUBLINGS {
        failures
    } else {
        BACKOFF_DOUBLINGS as nat
    };
    let high = if more < BACKOFF_DOUBLINGS {
        more
    } else {
        BACKOFF_DOUBLINGS as nat
    };
    if low < high {
        lemma_pow2_strictly_increases(low, high);
    }
}

/// The wait is exponential: each of the first seven failures after the first
/// doubles it, until it reaches the cap.
pub proof fn law_backoff_doubles(failures: nat, cap_ms: nat)
    requires
        failures < BACKOFF_DOUBLINGS,
    ensures
        backoff_ms(failures + 1, cap_ms) == (if 2 * backoff_ms(failures, cap_ms) < cap_ms {
            2 * backoff_ms(failures, cap_ms)
        } else {
            cap_ms
        }),
{
    lemma_pow2_unfold(failures + 1);
}

/// The first wait is 50 ms, if the cap lets it.
pub proof fn law_backoff_starts(cap_ms: nat)
    ensures
        backoff_ms(0, cap_ms) == (if 50 < cap_ms {
            50
        } else {
            cap_ms
        }),
{
    lemma2_to64();
}

/// The wait is 50 ms, doubled for each earlier failure, for up to seven of them;
/// further failures do not lengthen it. It is cut to the cap, and to nothing
/// else.
pub proof fn law_backoff_is_exponential(failures: nat, cap_ms: nat)
    ensures
        failures <= 7 && 50 * pow2(failures) <= cap_ms ==> backoff_ms(failures, cap_ms) == 50
            * pow2(failures),
        failures <= 7 && 50 * pow2(failures) > cap_ms ==> backoff_ms(failures, cap_ms) == cap_ms,
        failures >= 7 && cap_ms >= 6_400 ==> backoff_ms(failures, cap_ms) == 6_400,
        failures >= 7 && cap_ms < 6_400 ==> backoff_ms(failures, cap_ms) == cap_ms,
{
    lemma2_to64();
}

} // verus!
