//! Percentages.

use vstd::prelude::*;

use crate::binary64::{lemma_whole_is_positive, ratio_is_at_most_hundred, zero_is_zero, Binary64, Real64};

verus! {

/// What percentage of `whole` is `part`; zero where `whole` is not above zero.
pub open spec fn percentage(part: Real64, whole: Real64) -> Real64 {
    if whole.is_positive() {
        part.over(whole).times(Real64::of(100))
    } else {
        Real64::zero()
    }
}

/// What percentage of `whole` is `part`; zero where `whole` is not above zero.
pub fn pct(used: &Binary64, total: &Binary64) -> (r: Binary64)
    ensures
        r@ == percentage(used@, total@),
{
    if total.is_positive() {
        used.over(total).times(&Binary64::from_u64(100))
    } else {
        Binary64::zero()
    }
}

/// A part that is not more than the whole is between 0 and 100 percent of it.
pub proof fn percentage_is_at_most_hundred(part: nat, whole: nat)
    requires
        part <= whole <= u64::MAX,
    ensures
        percentage(Real64::of(part), Real64::of(whole)).at_most(100),
{
    if whole > 0 {
        ratio_is_at_most_hundred(part, whole);
    }
    zero_is_zero();
}

/// A percentage is the ratio in hundredths; nothing is zero percent of no whole.
pub proof fn percentage_is_the_ratio(part: Real64, whole: nat)
    requires
        whole <= u64::MAX,
    ensures
        whole > 0 ==> percentage(part, Real64::of(whole)) == part.over(Real64::of(whole)).times(Real64::of(100)),
        whole == 0 ==> percentage(part, Real64::of(whole)) == Real64::zero(),
{
    zero_is_zero();
    if whole > 0 {
        lemma_whole_is_positive(whole);
    }
}

} // verus!
