//! Waiting longer and longer between attempts to reconnect.

use vstd::arithmetic::power2::{lemma2_to64, lemma_pow2_unfold, pow2};
use vstd::prelude::*;

verus! {

/// Seconds before the first new attempt.
pub const FIRST_DELAY: u64 = 1;

/// Seconds that are never exceeded.
pub const LONGEST_DELAY: u64 = 60;

/// The delay after `seconds`: twice as long, up to the longest.
pub open spec fn doubled(seconds: int) -> int {
    if 2 * seconds > LONGEST_DELAY {
        LONGEST_DELAY as int
    } else {
        2 * seconds
    }
}

/// The delay before new attempt number `n`, counted from zero.
pub open spec fn delay_before(n: nat) -> int
    decreases n,
{
    if n == 0 {
        FIRST_DELAY as int
    } else {
        doubled(delay_before((n - 1) as nat))
    }
}

/// The delay after `seconds`.
pub fn next_delay(seconds: u64) -> (r: u64)
    ensures
        r == doubled(seconds as int),
{
    if seconds > LONGEST_DELAY / 2 {
        LONGEST_DELAY
    } else {
        2 * seconds
    }
}

/// The delays are 1, 2, 4, … and 60 from the seventh on.
pub proof fn delays_double_up_to_the_longest(n: nat)
    ensures
        delay_before(n) == if n < 6 {
            pow2(n) as int
        } else {
            60
        },
    decreases n,
{
    lemma2_to64();
    if n > 0 {
        delays_double_up_to_the_longest((n - 1) as nat);
        lemma_pow2_unfold(n);
    }
}

/// A delay doubles as long as that is no more than a minute, and is a minute from there on.
pub proof fn delays_double(seconds: int)
    ensures
        seconds <= 30 ==> doubled(seconds) == seconds + seconds,
        seconds > 30 ==> doubled(seconds) == 60,
        delay_before(0) == 1,
{
}

/// A delay is at least a second and at most a minute, and never shorter than the one before.
pub proof fn delays_stay_in_bounds(n: nat)
    ensures
        1 <= delay_before(n) <= 60,
        delay_before(n) <= delay_before(n + 1),
    decreases n,
{
    if n > 0 {
        delays_stay_in_bounds((n - 1) as nat);
    }
}

} // verus!
