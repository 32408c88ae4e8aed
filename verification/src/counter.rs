//! Counters that stop at their limits instead of wrapping.

use vstd::prelude::*;

verus! {

/// `n`, or the largest 64-bit number where it is larger.
pub open spec fn capped(n: int) -> int {
    if n > u64::MAX {
        u64::MAX as int
    } else {
        n
    }
}

/// `n`, or zero where it is negative.
pub open spec fn floored(n: int) -> int {
    if n < 0 {
        0
    } else {
        n
    }
}

/// A count, zero where it is missing.
pub open spec fn count_of(n: Option<u64>) -> int {
    match n {
        Some(v) => v as int,
        None => 0,
    }
}

/// A count, zero where it is missing.
pub fn count(n: Option<u64>) -> (r: u64)
    ensures
        r == count_of(n),
{
    match n {
        Some(v) => v,
        None => 0,
    }
}

/// The capped sum.
pub fn plus(a: u64, b: u64) -> (r: u64)
    ensures
        r == capped(a + b),
{
    if a > u64::MAX - b {
        u64::MAX
    } else {
        a + b
    }
}

/// The floored difference.
pub fn minus(a: u64, b: u64) -> (r: u64)
    ensures
        r == floored(a - b),
{
    if a < b {
        0
    } else {
        a - b
    }
}

/// The capped product.
pub fn product(a: u64, b: u64) -> (r: u64)
    ensures
        r == capped(a * b),
{
    assert(a * b <= 0xffff_ffff_ffff_ffff * 0xffff_ffff_ffff_ffff) by (nonlinear_arith)
        requires
            0 <= a <= 0xffff_ffff_ffff_ffff,
            0 <= b <= 0xffff_ffff_ffff_ffff,
    ;
    let wide: u128 = a as u128 * b as u128;
    if wide > u64::MAX as u128 {
        u64::MAX
    } else {
        wide as u64
    }
}

/// The total of a sequence of counts.
pub open spec fn total(counts: Seq<int>) -> int
    decreases counts.len(),
{
    if counts.len() == 0 {
        0
    } else {
        total(counts.drop_last()) + counts.last()
    }
}

/// A total of counts that are not negative is not negative.
pub proof fn total_is_not_negative(counts: Seq<int>)
    requires
        forall|i: int| 0 <= i < counts.len() ==> #[trigger] counts[i] >= 0,
    ensures
        total(counts) >= 0,
    decreases counts.len(),
{
    if counts.len() > 0 {
        total_is_not_negative(counts.drop_last());
    }
}

/// Capped and floored numbers stay what they are within the bounds, and are the nearer bound beyond.
pub proof fn bounds_are_kept(n: int)
    ensures
        0 <= n <= u64::MAX ==> capped(n) == n && floored(n) == n,
        n > u64::MAX ==> capped(n) == u64::MAX,
        n < 0 ==> floored(n) == 0,
{
}

/// One more count adds to the total what it counts; there is nothing in no counts.
pub proof fn totals_grow_by_what_is_added(counts: Seq<int>, n: int)
    ensures
        total(counts.push(n)) == total(counts) + n,
        total(Seq::<int>::empty()) == 0,
{
    assert(counts.push(n).drop_last() =~= counts);
}

} // verus!
