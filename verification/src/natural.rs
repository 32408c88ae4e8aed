//! Natural numbers of any size, as far as decimal conversion needs them.

use vstd::arithmetic::power2::{lemma_pow2_adds, lemma_pow2_pos, pow2};
use vstd::prelude::*;

verus! {

/// Weight of the limb at position `i`.
pub open spec fn weight(i: nat) -> nat {
    pow2(32 * i)
}

/// Limb `i` of a little-endian limb sequence, zero past its end.
pub open spec fn limb(s: Seq<u32>, i: int) -> nat {
    if 0 <= i < s.len() {
        s[i] as nat
    } else {
        0
    }
}

/// Value of the `i` lowest limbs.
pub open spec fn low(s: Seq<u32>, i: nat) -> nat
    decreases i,
{
    if i == 0 {
        0
    } else {
        low(s, (i - 1) as nat) + limb(s, i - 1) * weight((i - 1) as nat)
    }
}

proof fn lemma_weight_step(i: nat)
    ensures
        weight(i) > 0,
        weight(i + 1) == 0x1_0000_0000 * weight(i),
{
    lemma_pow2_pos(32 * i);
    lemma_pow2_adds(32 * i, 32);
    vstd::arithmetic::power2::lemma2_to64();
    assert(32 * (i + 1) == 32 * i + 32);
    assert(weight(i + 1) == pow2(32 * i) * pow2(32));
    assert(pow2(32) == 0x1_0000_0000);
    assert(pow2(32 * i) * pow2(32) == pow2(32) * pow2(32 * i)) by (nonlinear_arith);
}

proof fn lemma_low_bound(s: Seq<u32>, i: nat)
    ensures
        low(s, i) < weight(i),
    decreases i,
{
    if i == 0 {
        vstd::arithmetic::power2::lemma2_to64();
    } else {
        let j = (i - 1) as nat;
        lemma_low_bound(s, j);
        lemma_weight_step(j);
        let w = weight(j) as int;
        let l = limb(s, j as int) as int;
        assert(l * w <= 0xffff_ffff * w) by (nonlinear_arith)
            requires
                l <= 0xffff_ffff,
                w >= 0,
        ;
    }
}

/// Limbs past the end add nothing.
proof fn lemma_low_past_end(s: Seq<u32>, i: nat)
    requires
        i >= s.len(),
    ensures
        low(s, i) == low(s, s.len()),
    decreases i,
{
    if i > s.len() {
        lemma_low_past_end(s, (i - 1) as nat);
        assert(limb(s, i - 1) * weight((i - 1) as nat) == 0) by (nonlinear_arith)
            requires
                limb(s, i - 1) == 0,
        ;
    }
}

/// The low limbs do not depend on the others.
proof fn lemma_low_agrees(s: Seq<u32>, t: Seq<u32>, i: nat)
    requires
        forall|j: int| 0 <= j < i ==> limb(s, j) == limb(t, j),
    ensures
        low(s, i) == low(t, i),
    decreases i,
{
    if i > 0 {
        lemma_low_agrees(s, t, (i - 1) as nat);
    }
}

/// A natural number of any size.
pub struct Natural {
    limbs: Vec<u32>,
}

impl Natural {
    /// The number that is represented.
    pub closed spec fn value(&self) -> nat {
        low(self.limbs@, self.limbs@.len())
    }

    /// Zero.
    pub fn zero() -> (r: Natural)
        ensures
            r.value() == 0,
    {
        Natural { limbs: Vec::new() }
    }

    /// One.
    pub fn one() -> (r: Natural)
        ensures
            r.value() == 1,
    {
        let mut limbs: Vec<u32> = Vec::new();
        limbs.push(1);
        proof {
            reveal_with_fuel(low, 2);
            vstd::arithmetic::power2::lemma2_to64();
            assert(weight(0) == 1);
            assert(limb(limbs@, 0) * weight(0) == 1);
        }
        Natural { limbs }
    }

    /// Replaces the number by itself times `factor`, plus `addend`.
    pub fn mul_add(&mut self, factor: u32, addend: u32)
        ensures
            final(self).value() == old(self).value() * factor + addend,
    {
        let ghost before = self.limbs@;
        let mut carry: u64 = addend as u64;
        let mut i: usize = 0;
        proof {
            vstd::arithmetic::power2::lemma2_to64();
            assert(weight(0) == 1);
            assert(low(before, 0) * factor == 0) by (nonlinear_arith)
                requires
                    low(before, 0) == 0,
            ;
        }
        while i < self.limbs.len()
            invariant
                i <= self.limbs.len(),
                self.limbs@.len() == before.len(),
                carry <= 0xffff_ffff,
                forall|j: int| i <= j < before.len() ==> self.limbs@[j] == before[j],
                low(self.limbs@, i as nat) + carry * weight(i as nat) == low(before, i as nat) * factor
                    + addend,
            decreases self.limbs.len() - i,
        {
            let digit: u32 = self.limbs[i];
            assert(digit * factor <= 0xffff_ffff * 0xffff_ffff) by (nonlinear_arith)
                requires
                    digit <= 0xffff_ffff,
                    factor <= 0xffff_ffff,
            ;
            let t: u64 = digit as u64 * factor as u64 + carry;
            let fresh: u32 = (t % 0x1_0000_0000) as u32;
            let next: u64 = t / 0x1_0000_0000;
            let ghost held = self.limbs@;
            self.limbs.set(i, fresh);
            proof {
                lemma_low_agrees(self.limbs@, held, i as nat);
                lemma_weight_step(i as nat);
                let w = weight(i as nat) as int;
                let a = low(held, i as nat) as int;
                let b = low(before, i as nat) as int;
                assert((a + fresh * w) + next * (0x1_0000_0000 * w) == (b + digit * w) * factor + addend)
                    by (nonlinear_arith)
                    requires
                        a + carry * w == b * factor + addend,
                        fresh + next * 0x1_0000_0000 == digit * factor + carry,
                ;
            }
            carry = next;
            i = i + 1;
        }
        if carry > 0 {
            let ghost held = self.limbs@;
            self.limbs.push(carry as u32);
            proof {
                lemma_low_agrees(self.limbs@, held, i as nat);
            }
        } else {
            assert(carry * weight(i as nat) == 0) by (nonlinear_arith)
                requires
                    carry == 0,
            ;
        }
    }

    fn limb_at(&self, i: usize) -> (r: u32)
        ensures
            r == limb(self.limbs@, i as int),
    {
        if i < self.limbs.len() {
            self.limbs[i]
        } else {
            0
        }
    }

    /// Whether the number is at least `other`.
    pub fn at_least(&self, other: &Natural) -> (r: bool)
        ensures
            r == (self.value() >= other.value()),
    {
        let top: usize = if self.limbs.len() >= other.limbs.len() {
            self.limbs.len()
        } else {
            other.limbs.len()
        };
        let mut r: bool = true;
        let mut i: usize = 0;
        while i < top
            invariant
                i <= top,
                r == (low(self.limbs@, i as nat) >= low(other.limbs@, i as nat)),
            decreases top - i,
        {
            let a: u32 = self.limb_at(i);
            let b: u32 = other.limb_at(i);
            proof {
                lemma_low_bound(self.limbs@, i as nat);
                lemma_low_bound(other.limbs@, i as nat);
                let w = weight(i as nat) as int;
                if a > b {
                    assert(a * w >= b * w + w) by (nonlinear_arith)
                        requires
                            a >= b + 1,
                            w >= 0,
                    ;
                } else if a < b {
                    assert(b * w >= a * w + w) by (nonlinear_arith)
                        requires
                            b >= a + 1,
                            w >= 0,
                    ;
                }
            }
            if a > b {
                r = true;
            } else if a < b {
                r = false;
            }
            i = i + 1;
        }
        proof {
            lemma_low_past_end(self.limbs@, top as nat);
            lemma_low_past_end(other.limbs@, top as nat);
        }
        r
    }

    /// Takes `other`, which is not larger, from the number.
    pub fn subtract(&mut self, other: &Natural)
        requires
            other.value() <= old(self).value(),
        ensures
            final(self).value() == old(self).value() - other.value(),
    {
        let ghost before = self.limbs@;
        let top: usize = if self.limbs.len() >= other.limbs.len() {
            self.limbs.len()
        } else {
            other.limbs.len()
        };
        while self.limbs.len() < top
            invariant
                before.len() <= self.limbs@.len() <= top,
                forall|j: int| #![trigger limb(self.limbs@, j)] limb(self.limbs@, j) == limb(before, j),
            decreases top - self.limbs.len(),
        {
            let ghost held = self.limbs@;
            self.limbs.push(0);
            assert forall|j: int| #![trigger limb(self.limbs@, j)] limb(self.limbs@, j) == limb(before, j) by {
                assert(limb(held, j) == limb(before, j));
            }
        }
        let ghost padded = self.limbs@;
        proof {
            lemma_low_agrees(padded, before, top as nat);
            lemma_low_past_end(before, top as nat);
            lemma_low_past_end(other.limbs@, top as nat);
            vstd::arithmetic::power2::lemma2_to64();
        }
        let mut borrow: u64 = 0;
        let mut i: usize = 0;
        while i < top
            invariant
                i <= top,
                self.limbs@.len() == top == padded.len(),
                borrow <= 1,
                forall|j: int| i <= j < top ==> self.limbs@[j] == padded[j],
                low(self.limbs@, i as nat) + low(other.limbs@, i as nat) == low(padded, i as nat) + borrow
                    * weight(i as nat),
            decreases top - i,
        {
            let a: u64 = self.limbs[i] as u64;
            let b: u64 = other.limb_at(i) as u64;
            let t: u64 = 0x1_0000_0000 + a - b - borrow;
            let fresh: u32 = (t % 0x1_0000_0000) as u32;
            let next: u64 = 1 - t / 0x1_0000_0000;
            let ghost held = self.limbs@;
            self.limbs.set(i, fresh);
            proof {
                lemma_low_agrees(self.limbs@, held, i as nat);
                lemma_weight_step(i as nat);
                let w = weight(i as nat) as int;
                let x = low(held, i as nat) as int;
                let y = low(other.limbs@, i as nat) as int;
                let z = low(padded, i as nat) as int;
                assert((x + fresh * w) + (y + b * w) == (z + a * w) + next * (0x1_0000_0000 * w))
                    by (nonlinear_arith)
                    requires
                        x + y == z + borrow * w,
                        fresh + b + borrow == a + next * 0x1_0000_0000,
                ;
            }
            borrow = next;
            i = i + 1;
        }
        proof {
            lemma_low_bound(self.limbs@, top as nat);
            assert(borrow * weight(top as nat) >= weight(top as nat) || borrow == 0) by (nonlinear_arith);
            assert(borrow * weight(top as nat) == 0) by (nonlinear_arith)
                requires
                    borrow == 0,
            ;
        }
    }

    /// Whether the number is zero.
    pub fn is_zero(&self) -> (r: bool)
        ensures
            r == (self.value() == 0),
    {
        let zero: Natural = Natural::zero();
        zero.at_least(self)
    }
}

} // verus!
