//! IEEE 754 binary64 numbers in software.
//!
//! Percentages, core counts and resource quantities are binary64 numbers. They are held as their
//! 64 bits and computed on with integers alone, so that every rounding step has a stated result.
//!
//! Every finite binary64 number is a whole multiple of 2^-1074, the smallest positive one. The
//! model below counts in that unit.

use vstd::arithmetic::div_mod::{lemma_fundamental_div_mod, lemma_fundamental_div_mod_converse};
use vstd::arithmetic::power2::{
    lemma2_to64, lemma2_to64_rest, lemma_pow2_adds, lemma_pow2_pos, lemma_pow2_strictly_increases, pow2,
};
use vstd::prelude::*;

verus! {

/// 2^52: the smallest full mantissa.
pub const FULL: u64 = 0x10_0000_0000_0000;

/// 2^53: one more than the largest mantissa.
pub const FULL_END: u64 = 0x20_0000_0000_0000;

/// Largest scale of a finite number.
pub const MAX_SCALE: u32 = 2045;

/// What a binary64 number is.
pub enum Real64 {
    /// Not a number.
    Nan,
    /// An infinity.
    Infinite { negative: bool },
    /// `mantissa * 2^scale` units of 2^-1074, with a sign.
    Finite { negative: bool, mantissa: nat, scale: nat },
}

/// The number one, counted in units of 2^-1074.
pub open spec fn one_in_units() -> nat {
    pow2(1074)
}

/// Whether `scale` is the smallest one at which `n / d` units fit in 53 bits.
pub open spec fn is_scale(n: nat, d: nat, scale: nat) -> bool {
    &&& n < d * pow2(scale + 53)
    &&& scale > 0 ==> n >= d * pow2((scale + 52) as nat)
}

/// The smallest scale at which `n / d` units fit in 53 bits.
pub open spec fn scale_of(n: nat, d: nat) -> nat {
    choose|scale: nat| is_scale(n, d, scale)
}

/// The whole number nearest to `n / d`, the even one of two that are equally near.
pub open spec fn half_even(n: nat, d: nat) -> nat {
    let q = n / d;
    let r = n % d;
    if 2 * r < d || (2 * r == d && q % 2 == 0) {
        q
    } else {
        q + 1
    }
}

/// The number with this mantissa and scale, after a mantissa that was rounded up to 2^53 has
/// moved to the next scale; an infinity where the scale is too large.
pub open spec fn settled(negative: bool, mantissa: nat, scale: nat) -> Real64 {
    let m = if mantissa == FULL_END {
        FULL as nat
    } else {
        mantissa
    };
    let k = if mantissa == FULL_END {
        scale + 1
    } else {
        scale
    };
    if k > MAX_SCALE {
        Real64::Infinite { negative }
    } else {
        Real64::Finite { negative, mantissa: m, scale: k }
    }
}

/// The binary64 number nearest to `n / d` units: round to nearest, ties to even.
pub open spec fn rounded(negative: bool, n: nat, d: nat) -> Real64 {
    let scale = scale_of(n, d);
    settled(negative, half_even(n, d * pow2(scale)), scale)
}

/// Magnitude of a finite number in units of 2^-1074.
pub open spec fn units(mantissa: nat, scale: nat) -> nat {
    mantissa * pow2(scale)
}

/// The whole number nearest to `n / d`, the larger one of two that are equally near.
pub open spec fn half_up(n: nat, d: nat) -> nat {
    (2 * n + d) / (2 * d)
}

impl Real64 {
    /// Positive zero.
    pub open spec fn zero() -> Real64 {
        Real64::Finite { negative: false, mantissa: 0, scale: 0 }
    }

    /// The number nearest to a whole number.
    pub open spec fn of(v: nat) -> Real64 {
        rounded(false, v * one_in_units(), 1)
    }

    /// Whether the number is zero, of either sign.
    pub open spec fn is_zero(self) -> bool {
        self matches Real64::Finite { mantissa, .. } && mantissa == 0
    }

    /// Whether the number is above zero.
    pub open spec fn is_positive(self) -> bool {
        match self {
            Real64::Nan => false,
            Real64::Infinite { negative } => !negative,
            Real64::Finite { negative, mantissa, .. } => !negative && mantissa != 0,
        }
    }

    /// Whether the number is finite and not below zero; negative zero is not below zero.
    pub open spec fn is_amount(self) -> bool {
        self matches Real64::Finite { negative, mantissa, .. } && (!negative || mantissa == 0)
    }

    /// Whether the number is finite, not below zero and not above `n`.
    pub open spec fn at_most(self, n: nat) -> bool {
        self matches Real64::Finite { negative, mantissa, scale } && !negative && units(mantissa, scale) <= n
            * one_in_units()
    }

    /// The rounded product.
    pub open spec fn times(self, other: Real64) -> Real64 {
        match (self, other) {
            (Real64::Nan, _) => Real64::Nan,
            (_, Real64::Nan) => Real64::Nan,
            (Real64::Infinite { negative: a }, Real64::Infinite { negative: b }) => Real64::Infinite {
                negative: a != b,
            },
            (Real64::Infinite { negative: a }, Real64::Finite { negative: b, mantissa, .. }) => {
                if mantissa == 0 {
                    Real64::Nan
                } else {
                    Real64::Infinite { negative: a != b }
                }
            },
            (Real64::Finite { negative: a, mantissa, .. }, Real64::Infinite { negative: b }) => {
                if mantissa == 0 {
                    Real64::Nan
                } else {
                    Real64::Infinite { negative: a != b }
                }
            },
            (
                Real64::Finite { negative: a, mantissa: m, scale: k },
                Real64::Finite { negative: b, mantissa: o, scale: l },
            ) => rounded(a != b, units(m, k) * units(o, l), one_in_units()),
        }
    }

    /// The rounded quotient.
    pub open spec fn over(self, other: Real64) -> Real64 {
        match (self, other) {
            (Real64::Nan, _) => Real64::Nan,
            (_, Real64::Nan) => Real64::Nan,
            (Real64::Infinite { .. }, Real64::Infinite { .. }) => Real64::Nan,
            (Real64::Infinite { negative: a }, Real64::Finite { negative: b, .. }) => Real64::Infinite {
                negative: a != b,
            },
            (Real64::Finite { negative: a, .. }, Real64::Infinite { negative: b }) => Real64::Finite {
                negative: a != b,
                mantissa: 0,
                scale: 0,
            },
            (
                Real64::Finite { negative: a, mantissa: m, scale: k },
                Real64::Finite { negative: b, mantissa: o, scale: l },
            ) => {
                if o == 0 {
                    if m == 0 {
                        Real64::Nan
                    } else {
                        Real64::Infinite { negative: a != b }
                    }
                } else {
                    rounded(a != b, units(m, k) * one_in_units(), units(o, l))
                }
            },
        }
    }

    /// The nearest unsigned whole number, halves away from zero: what is not a number or below
    /// zero gives zero, what is too large the largest.
    pub open spec fn to_u64(self) -> u64 {
        match self {
            Real64::Nan => 0,
            Real64::Infinite { negative } => if negative { 0 } else { u64::MAX },
            Real64::Finite { negative, mantissa, scale } => {
                let whole = half_up(units(mantissa, scale), one_in_units());
                if negative {
                    0
                } else if whole > u64::MAX {
                    u64::MAX
                } else {
                    whole as u64
                }
            },
        }
    }
}

/// What 64 bits stand for.
pub open spec fn decode(bits: u64) -> Real64 {
    let negative = bits >= 0x8000_0000_0000_0000;
    let exponent = (bits / FULL) % 2048;
    let fraction = bits % FULL;
    if exponent == 2047 {
        if fraction == 0 {
            Real64::Infinite { negative }
        } else {
            Real64::Nan
        }
    } else if exponent == 0 {
        Real64::Finite { negative, mantissa: fraction as nat, scale: 0 }
    } else {
        Real64::Finite { negative, mantissa: (FULL + fraction) as nat, scale: (exponent - 1) as nat }
    }
}

// ── Lemmas on rounding ───────────────────────────────────────────────────────

pub(crate) proof fn lemma_pow2_monotone(a: nat, b: nat)
    requires
        a <= b,
    ensures
        pow2(a) <= pow2(b),
        pow2(a) > 0,
{
    lemma_pow2_pos(a);
    if a < b {
        lemma_pow2_strictly_increases(a, b);
    }
}

/// There is only one scale.
proof fn lemma_scale_unique(n: nat, d: nat, scale: nat)
    requires
        d > 0,
        is_scale(n, d, scale),
    ensures
        scale_of(n, d) == scale,
{
    let other = scale_of(n, d);
    assert(is_scale(n, d, other));
    if other < scale {
        lemma_pow2_monotone(other + 53, (scale + 52) as nat);
        assert(d * pow2(other + 53) <= d * pow2((scale + 52) as nat)) by (nonlinear_arith)
            requires
                pow2(other + 53) <= pow2((scale + 52) as nat),
        ;
    } else if scale < other {
        lemma_pow2_monotone(scale + 53, (other + 52) as nat);
        assert(d * pow2(scale + 53) <= d * pow2((other + 52) as nat)) by (nonlinear_arith)
            requires
                pow2(scale + 53) <= pow2((other + 52) as nat),
        ;
    }
}

/// A common factor does not change the rounded quotient.
proof fn lemma_half_even_common_factor(n: nat, d: nat, c: nat)
    requires
        d > 0,
        c > 0,
    ensures
        half_even(n * c, d * c) == half_even(n, d),
        d * c > 0,
{
    let q = (n / d) as int;
    let r = (n % d) as int;
    lemma_fundamental_div_mod(n as int, d as int);
    assert(d * c > 0) by (nonlinear_arith)
        requires
            d > 0,
            c > 0,
    ;
    assert(n * c == q * (d * c) + r * c) by (nonlinear_arith)
        requires
            n == d * q + r,
    ;
    assert(0 <= r * c < d * c) by (nonlinear_arith)
        requires
            0 <= r < d,
            c > 0,
    ;
    lemma_fundamental_div_mod_converse((n * c) as int, (d * c) as int, q, r * c);
    assert((2 * r < d) == (2 * (r * c) < d * c)) by (nonlinear_arith)
        requires
            c > 0,
    ;
    assert((2 * r == d) == (2 * (r * c) == d * c)) by (nonlinear_arith)
        requires
            c > 0,
    ;
}

/// Rounding `(q + f / b) / p` needs only the low bits of `q` and whether `f` is zero.
proof fn lemma_half_even_from_bits(a: nat, b: nat, q: nat, m: nat, r: nat, h: nat)
    requires
        b > 0,
        h > 0,
        r < 2 * h,
        q == m * (2 * h) + r,
        q * b <= a < (q + 1) * b,
    ensures
        half_even(a, b * (2 * h)) == if r > h || (r == h && (a != q * b || m % 2 == 1)) {
            m + 1
        } else {
            m
        },
        b * (2 * h) > 0,
{
    let p = 2 * h;
    let f = (a - q * b) as int;
    assert((q + 1) * b == q * b + b) by (nonlinear_arith);
    assert(b * p > 0) by (nonlinear_arith)
        requires
            b > 0,
            p > 0,
    ;
    assert(a == m * (b * p) + (r * b + f)) by (nonlinear_arith)
        requires
            q == m * p + r,
            a == q * b + f,
    ;
    assert(0 <= r * b + f < b * p) by (nonlinear_arith)
        requires
            0 <= f < b,
            0 <= r,
            r + 1 <= p,
    ;
    lemma_fundamental_div_mod_converse(a as int, (b * p) as int, m as int, r * b + f);
    let rem = r * b + f;
    assert(b * p == 2 * (h * b)) by (nonlinear_arith)
        requires
            p == 2 * h,
    ;
    if r < h {
        assert(r * b + b <= h * b) by (nonlinear_arith)
            requires
                r + 1 <= h,
                b >= 0,
        ;
    } else if r > h {
        assert(r * b >= h * b + b) by (nonlinear_arith)
            requires
                r >= h + 1,
                b >= 0,
        ;
    }
}

/// `q`, counted in `2^s` units, is `n / d` units rounded down; `inexact` tells whether it is less.
pub open spec fn brackets(n: nat, d: nat, q: nat, s: int, inexact: bool) -> bool {
    let a = n * pow2(if s < 0 { -s as nat } else { 0 });
    let b = d * pow2(if s > 0 { s as nat } else { 0 });
    &&& q * b <= a < (q + 1) * b
    &&& inexact == (a != q * b)
}

/// Moving a power of two between numerator and denominator.
proof fn lemma_shift(d: nat, e: nat, s: int)
    requires
        e >= s,
    ensures
        (d * pow2(e)) * pow2(if s < 0 { -s as nat } else { 0 }) == (d * pow2(
            if s > 0 { s as nat } else { 0 },
        )) * pow2((e - s) as nat),
{
    let up: nat = if s < 0 { -s as nat } else { 0 };
    let down: nat = if s > 0 { s as nat } else { 0 };
    lemma_pow2_adds(e, up);
    lemma_pow2_adds(down, (e - s) as nat);
    assert(e + up == down + (e - s));
    assert((d * pow2(e)) * pow2(up) == d * (pow2(e) * pow2(up))) by (nonlinear_arith);
    assert((d * pow2(down)) * pow2((e - s) as nat) == d * (pow2(down) * pow2((e - s) as nat)))
        by (nonlinear_arith);
}

/// The scale of a bracketed quotient follows from the length of `q`.
proof fn lemma_bracket_scale(n: nat, d: nat, q: nat, s: int, inexact: bool, len: nat, k: nat)
    requires
        d > 0,
        len > 0,
        brackets(n, d, q, s, inexact),
        pow2((len - 1) as nat) <= q < pow2(len),
        k == if len + s - 53 > 0 { len + s - 53 } else { 0 },
    ensures
        is_scale(n, d, k),
        scale_of(n, d) == k,
{
    let up: nat = if s < 0 { -s as nat } else { 0 };
    let down: nat = if s > 0 { s as nat } else { 0 };
    let c = pow2(up);
    let b = d * pow2(down);
    lemma_pow2_pos(up);
    lemma_shift(d, k + 53, s);
    let e = (k + 53 - s) as nat;
    lemma_pow2_monotone(len, e);
    assert(n < d * pow2(k + 53)) by (nonlinear_arith)
        requires
            n * c < (q + 1) * b,
            q + 1 <= pow2(e),
            (d * pow2(k + 53)) * c == b * pow2(e),
            c > 0,
            b >= 0,
    ;
    if k > 0 {
        lemma_shift(d, k + 52, s);
        let g = (k + 52 - s) as nat;
        assert(g == len - 1);
        assert(n >= d * pow2(k + 52)) by (nonlinear_arith)
            requires
                n * c >= q * b,
                q >= pow2(g),
                (d * pow2(k + 52)) * c == b * pow2(g),
                c > 0,
                b >= 0,
        ;
    }
    lemma_scale_unique(n, d, k);
}

/// Rounded mantissa of a bracketed quotient that has to give up bits.
proof fn lemma_bracket_shortened(
    n: nat,
    d: nat,
    q: nat,
    s: int,
    inexact: bool,
    k: nat,
    m: nat,
    r: nat,
)
    requires
        d > 0,
        brackets(n, d, q, s, inexact),
        k > s,
        q == m * pow2((k - s) as nat) + r,
        r < pow2((k - s) as nat),
    ensures
        half_even(n, d * pow2(k)) == {
            let h = pow2((k - s - 1) as nat);
            if r > h || (r == h && (inexact || m % 2 == 1)) {
                m + 1
            } else {
                m
            }
        },
{
    let up: nat = if s < 0 { -s as nat } else { 0 };
    let down: nat = if s > 0 { s as nat } else { 0 };
    let c = pow2(up);
    let b = d * pow2(down);
    let sh = (k - s) as nat;
    let h = pow2((sh - 1) as nat);
    lemma_pow2_pos(up);
    lemma_pow2_pos(down);
    lemma_pow2_pos(k);
    lemma_pow2_pos((sh - 1) as nat);
    lemma2_to64();
    lemma_pow2_adds((sh - 1) as nat, 1);
    assert(pow2(sh) == 2 * h);
    assert(b > 0) by (nonlinear_arith)
        requires
            d > 0,
            pow2(down) > 0,
            b == d * pow2(down),
    ;
    assert(d * pow2(k) > 0) by (nonlinear_arith)
        requires
            d > 0,
            pow2(k) > 0,
    ;
    lemma_shift(d, k, s);
    lemma_half_even_common_factor(n, d * pow2(k), c);
    lemma_half_even_from_bits(n * c, b, q, m, r, h);
}

/// Mantissa of a bracketed quotient that fits.
proof fn lemma_bracket_exact(n: nat, d: nat, q: nat, s: int, k: nat)
    requires
        d > 0,
        brackets(n, d, q, s, false),
        k <= s,
    ensures
        half_even(n, d * pow2(k)) == q * pow2((s - k) as nat),
{
    lemma2_to64();
    let sh = (s - k) as nat;
    let m = q * pow2(sh);
    lemma_pow2_adds(k, sh);
    lemma_pow2_pos(k);
    let dk = d * pow2(k);
    assert(dk > 0) by (nonlinear_arith)
        requires
            d > 0,
            pow2(k) > 0,
            dk == d * pow2(k),
    ;
    assert(pow2(s as nat) == pow2(k) * pow2(sh));
    assert(n == n * pow2(0)) by (nonlinear_arith)
        requires
            pow2(0) == 1,
    ;
    if s == 0 {
        assert(d * pow2(0) == d) by (nonlinear_arith)
            requires
                pow2(0) == 1,
        ;
    }
    assert(n == q * (d * pow2(s as nat)));
    assert(n == m * dk + 0) by (nonlinear_arith)
        requires
            n == q * (d * pow2(s as nat)),
            pow2(s as nat) == pow2(k) * pow2(sh),
            m == q * pow2(sh),
            dk == d * pow2(k),
    ;
    lemma_fundamental_div_mod_converse(n as int, dk as int, m as int, 0);
}

/// A mantissa at its scale has 53 bits, or fewer at scale zero, before it is settled.
proof fn lemma_half_even_range(n: nat, d: nat, k: nat)
    requires
        d > 0,
        is_scale(n, d, k),
    ensures
        half_even(n, d * pow2(k)) <= FULL_END,
        k > 0 ==> half_even(n, d * pow2(k)) >= FULL,
{
    lemma2_to64_rest();
    lemma_pow2_pos(k);
    lemma_pow2_adds(k, 53);
    lemma_pow2_adds(k, 52);
    let dk = d * pow2(k);
    assert(dk > 0) by (nonlinear_arith)
        requires
            d > 0,
            pow2(k) > 0,
            dk == d * pow2(k),
    ;
    assert(d * pow2(k + 53) == dk * FULL_END) by (nonlinear_arith)
        requires
            pow2(k + 53) == pow2(k) * pow2(53),
            pow2(53) == FULL_END,
            dk == d * pow2(k),
    ;
    assert(d * pow2(k + 52) == dk * FULL) by (nonlinear_arith)
        requires
            pow2(k + 52) == pow2(k) * pow2(52),
            pow2(52) == FULL,
            dk == d * pow2(k),
    ;
    lemma_fundamental_div_mod(n as int, dk as int);
    let q = (n / dk) as int;
    let r = (n % dk) as int;
    assert(q < FULL_END) by (nonlinear_arith)
        requires
            n == dk * q + r,
            r >= 0,
            n < dk * FULL_END,
            dk > 0,
    ;
    if k > 0 {
        assert(q >= FULL) by (nonlinear_arith)
            requires
                n == dk * q + r,
                r < dk,
                n >= dk * FULL,
                dk > 0,
        ;
    }
}

// ── The numbers ──────────────────────────────────────────────────────────────

/// An IEEE 754 binary64 number.
#[derive(Debug, Clone, Copy, PartialEq, Eq, Structural)]
pub struct Binary64 {
    bits: u64,
}

impl View for Binary64 {
    type V = Real64;

    open spec fn view(&self) -> Real64 {
        decode(self.pattern())
    }
}

/// `2^e`.
fn power_of_two(e: u32) -> (r: u128)
    requires
        e <= 127,
    ensures
        r == pow2(e as nat),
        r > 0,
{
    let mut r: u128 = 1;
    let mut i: u32 = 0;
    proof {
        lemma2_to64();
    }
    while i < e
        invariant
            i <= e <= 127,
            r == pow2(i as nat),
        decreases e - i,
    {
        proof {
            lemma2_to64();
            lemma2_to64_rest();
            lemma_pow2_adds(63, 63);
            lemma_pow2_monotone(i as nat, 126);
            lemma_pow2_adds(i as nat, 1);
        }
        r = r * 2;
        i = i + 1;
    }
    proof {
        lemma_pow2_pos(e as nat);
    }
    r
}

/// Number of binary digits of `q`.
fn bit_length(q: u128) -> (len: u32)
    requires
        0 < q < 0x8000_0000_0000_0000_0000_0000_0000_0000,
    ensures
        0 < len <= 127,
        pow2((len - 1) as nat) <= q < pow2(len as nat),
{
    let mut len: u32 = 0;
    let mut p: u128 = 1;
    proof {
        lemma2_to64();
        lemma2_to64_rest();
        lemma_pow2_adds(63, 64);
        assert(pow2(127) == 0x8000_0000_0000_0000_0000_0000_0000_0000);
    }
    while p <= q
        invariant
            len <= 127,
            p == pow2(len as nat),
            len > 0 ==> pow2((len - 1) as nat) <= q,
            0 < q < 0x8000_0000_0000_0000_0000_0000_0000_0000,
            pow2(127) == 0x8000_0000_0000_0000_0000_0000_0000_0000,
            len == 0 ==> p == 1,
        decreases 128 - len,
    {
        proof {
            lemma2_to64();
            lemma_pow2_adds(len as nat, 1);
        }
        p = p * 2;
        len = len + 1;
    }
    len
}

impl Binary64 {
    /// The 64 bits.
    pub closed spec fn pattern(&self) -> u64 {
        self.bits
    }

    /// The number that 64 bits stand for.
    pub fn from_bits(bits: u64) -> (r: Binary64)
        ensures
            r.pattern() == bits,
            r@ == decode(bits),
    {
        Binary64 { bits }
    }

    /// The 64 bits that stand for the number.
    pub fn to_bits(&self) -> (r: u64)
        ensures
            r == self.pattern(),
            decode(r) == self@,
    {
        self.bits
    }

    /// Positive zero.
    pub fn zero() -> (r: Binary64)
        ensures
            r@ == (Real64::Finite { negative: false, mantissa: 0, scale: 0 }),
    {
        Binary64 { bits: 0 }
    }

    /// A zero with a sign.
    pub fn signed_zero(negative: bool) -> (r: Binary64)
        ensures
            r@ == (Real64::Finite { negative, mantissa: 0, scale: 0 }),
    {
        Binary64::settle(negative, 0, 0)
    }

    fn nan() -> (r: Binary64)
        ensures
            r@ == Real64::Nan,
    {
        Binary64 { bits: 0x7ff8_0000_0000_0000 }
    }

    /// An infinity.
    pub fn signed_infinity(negative: bool) -> (r: Binary64)
        ensures
            r@ == (Real64::Infinite { negative }),
    {
        if negative {
            Binary64 { bits: 0xfff0_0000_0000_0000 }
        } else {
            Binary64 { bits: 0x7ff0_0000_0000_0000 }
        }
    }

    /// Puts sign, mantissa and scale together.
    fn settle(negative: bool, mantissa: u64, scale: u32) -> (r: Binary64)
        requires
            mantissa <= FULL_END,
            scale > 0 ==> mantissa >= FULL,
            scale < u32::MAX,
        ensures
            r@ == settled(negative, mantissa as nat, scale as nat),
    {
        let m: u64 = if mantissa == FULL_END {
            FULL
        } else {
            mantissa
        };
        let k: u32 = if mantissa == FULL_END {
            scale + 1
        } else {
            scale
        };
        if k > MAX_SCALE {
            return Binary64::signed_infinity(negative);
        }
        let magnitude: u64 = if m < FULL {
            m
        } else {
            (k as u64 + 1) * FULL + (m - FULL)
        };
        let bits: u64 = if negative {
            0x8000_0000_0000_0000 + magnitude
        } else {
            magnitude
        };
        Binary64 { bits }
    }

    /// Whether the number is not a number.
    fn is_nan(&self) -> (r: bool)
        ensures
            r == (self@ is Nan),
    {
        (self.bits / FULL) % 2048 == 2047 && self.bits % FULL != 0
    }

    fn is_infinite(&self) -> (r: bool)
        ensures
            r == (self@ is Infinite),
    {
        (self.bits / FULL) % 2048 == 2047 && self.bits % FULL == 0
    }

    fn is_negative(&self) -> (r: bool)
        ensures
            self@ matches Real64::Infinite { negative } ==> r == negative,
            self@ matches Real64::Finite { negative, .. } ==> r == negative,
    {
        self.bits >= 0x8000_0000_0000_0000
    }

    /// Mantissa and scale of a finite number.
    fn parts(&self) -> (r: (u64, u32))
        requires
            self@ is Finite,
        ensures
            self@ matches Real64::Finite { mantissa, scale, .. } && mantissa == r.0 && scale == r.1,
            r.0 < FULL_END,
            r.1 <= MAX_SCALE,
            r.1 > 0 ==> r.0 >= FULL,
    {
        let exponent: u64 = (self.bits / FULL) % 2048;
        let fraction: u64 = self.bits % FULL;
        if exponent == 0 {
            (fraction, 0)
        } else {
            (FULL + fraction, (exponent - 1) as u32)
        }
    }

    /// Whether the number is zero, of either sign.
    pub fn is_zero(&self) -> (r: bool)
        ensures
            r == self@.is_zero(),
    {
        !self.is_nan() && !self.is_infinite() && self.parts().0 == 0
    }

    /// Whether the number is neither infinite nor not a number.
    pub fn is_finite(&self) -> (r: bool)
        ensures
            r == (self@ is Finite),
    {
        !self.is_nan() && !self.is_infinite()
    }

    /// Whether the number is above zero.
    pub fn is_positive(&self) -> (r: bool)
        ensures
            r == self@.is_positive(),
    {
        !self.is_nan() && !self.is_negative() && !self.is_zero()
    }

    /// Whether the number is finite and not below zero.
    pub fn is_amount(&self) -> (r: bool)
        ensures
            r == self@.is_amount(),
    {
        !self.is_nan() && !self.is_infinite() && (!self.is_negative() || self.is_zero())
    }

    /// The number nearest to `v`.
    pub fn from_u64(v: u64) -> (r: Binary64)
        ensures
            r@ == Real64::of(v as nat),
    {
        proof {
            lemma2_to64();
            let n = v as nat * one_in_units();
            assert(n * pow2(0) == v * (1 * pow2(1074))) by (nonlinear_arith)
                requires
                    pow2(0) == 1,
                    n == v * pow2(1074),
            ;
            lemma_exact_bracket(n, 1, v as nat, 1074);
        }
        Binary64::round_bracketed(false, v as u128, 1074, false, Ghost(v as nat * one_in_units()), Ghost(1))
    }

    /// The rounded product.
    pub fn times(&self, other: &Binary64) -> (r: Binary64)
        ensures
            r@ == self@.times(other@),
    {
        if self.is_nan() || other.is_nan() {
            return Binary64::nan();
        }
        let negative: bool = self.is_negative() != other.is_negative();
        if self.is_infinite() || other.is_infinite() {
            if self.is_zero() || other.is_zero() {
                return Binary64::nan();
            }
            return Binary64::signed_infinity(negative);
        }
        let (m, k): (u64, u32) = self.parts();
        let (o, l): (u64, u32) = other.parts();
        assert(m * o < FULL_END * FULL_END) by (nonlinear_arith)
            requires
                m < FULL_END,
                o < FULL_END,
        ;
        let q: u128 = m as u128 * o as u128;
        let s: i32 = k as i32 + l as i32 - 1074;
        proof {
            lemma_product_bracket(m as nat, k as nat, o as nat, l as nat);
        }
        Binary64::round_bracketed(
            negative,
            q,
            s,
            false,
            Ghost(units(m as nat, k as nat) * units(o as nat, l as nat)),
            Ghost(one_in_units()),
        )
    }

    /// The rounded quotient.
    pub fn over(&self, other: &Binary64) -> (r: Binary64)
        ensures
            r@ == self@.over(other@),
    {
        if self.is_nan() || other.is_nan() {
            return Binary64::nan();
        }
        let negative: bool = self.is_negative() != other.is_negative();
        if self.is_infinite() {
            if other.is_infinite() {
                return Binary64::nan();
            }
            return Binary64::signed_infinity(negative);
        }
        if other.is_infinite() {
            return Binary64::settle(negative, 0, 0);
        }
        let (m, k): (u64, u32) = self.parts();
        let (o, l): (u64, u32) = other.parts();
        if o == 0 {
            if m == 0 {
                return Binary64::nan();
            }
            return Binary64::signed_infinity(negative);
        }
        if m == 0 {
            proof {
                lemma_quotient_bracket(0, k as nat, 0, o as nat, l as nat, 0, 0);
                lemma_nothing(units(m as nat, k as nat) * one_in_units(), units(o as nat, l as nat), k - l + 1000);
            }
            return Binary64::settle(negative, 0, 0);
        }
        let mut full: u64 = m;
        let mut j: u32 = 0;
        proof {
            lemma2_to64();
        }
        while full < FULL
            invariant
                0 < m,
                j <= 52,
                full == m * pow2(j as nat),
                pow2(j as nat) <= full < FULL_END,
            decreases FULL_END - full,
        {
            proof {
                lemma2_to64();
                lemma2_to64_rest();
                lemma_pow2_pos(j as nat);
                lemma_pow2_adds(j as nat, 1);
                if j == 52 {
                    assert(pow2(52) == FULL);
                }
                assert(m * (pow2(j as nat) * 2) == (m * pow2(j as nat)) * 2) by (nonlinear_arith);
            }
            full = full * 2;
            j = j + 1;
        }
        proof {
            lemma2_to64();
            lemma_pow2_adds(10, 64);
            assert(pow2(74) == 0x400_0000_0000_0000_0000);
        }
        let top: u128 = full as u128 * 0x400_0000_0000_0000_0000;
        let q: u128 = top / o as u128;
        let rest: u128 = top % o as u128;
        let s: i32 = k as i32 - j as i32 - l as i32 + 1000;
        proof {
            lemma_fundamental_div_mod(top as int, o as int);
            assert(top == q * o + rest) by (nonlinear_arith)
                requires
                    top == o * q + rest,
            ;
            lemma_quotient_bracket(m as nat, k as nat, j as nat, o as nat, l as nat, q as nat, rest as nat);
            assert(q >= 0x40_0000_0000_0000) by (nonlinear_arith)
                requires
                    top == q * o + rest,
                    top >= 0x10_0000_0000_0000 * 0x400_0000_0000_0000_0000,
                    rest < o,
                    o < 0x20_0000_0000_0000,
            ;
        }
        Binary64::round_bracketed(
            negative,
            q,
            s,
            rest != 0,
            Ghost(units(m as nat, k as nat) * one_in_units()),
            Ghost(units(o as nat, l as nat)),
        )
    }

    /// The nearest unsigned whole number, halves away from zero, within the range of the type.
    pub fn to_u64(&self) -> (r: u64)
        ensures
            r == self@.to_u64(),
    {
        if self.is_nan() || self.is_negative() {
            return 0;
        }
        if self.is_infinite() {
            return u64::MAX;
        }
        let (m, k): (u64, u32) = self.parts();
        if k >= 1074 {
            let shift: u32 = k - 1074;
            proof {
                lemma_whole_units(m as nat, k as nat);
            }
            if shift >= 12 {
                proof {
                    lemma2_to64();
                    lemma_pow2_monotone(12, shift as nat);
                    assert(m * pow2(shift as nat) >= FULL * 4096) by (nonlinear_arith)
                        requires
                            m >= FULL,
                            pow2(shift as nat) >= 4096,
                    ;
                }
                return u64::MAX;
            }
            proof {
                lemma2_to64();
                lemma_pow2_monotone(shift as nat, 11);
                assert(m * pow2(shift as nat) <= FULL_END * 2048) by (nonlinear_arith)
                    requires
                        m <= FULL_END,
                        pow2(shift as nat) <= 2048,
                ;
            }
            let whole: u128 = m as u128 * power_of_two(shift);
            if whole > u64::MAX as u128 {
                u64::MAX
            } else {
                whole as u64
            }
        } else {
            let shift: u32 = 1074 - k;
            proof {
                lemma_part_units(m as nat, k as nat, shift as nat);
            }
            if shift >= 55 {
                return 0;
            }
            let p: u128 = power_of_two(shift);
            proof {
                lemma2_to64_rest();
                lemma_pow2_monotone(shift as nat, 54);
            }
            let whole: u128 = (2 * m as u128 + p) / (2 * p);
            proof {
                assert(whole <= u64::MAX) by (nonlinear_arith)
                    requires
                        whole == (2 * m as u128 + p) / (2 * p),
                        p >= 1,
                        m <= FULL_END,
                ;
            }
            whole as u64
        }
    }

    /// The number nearest to a bracketed quotient.
    pub(crate) fn round_bracketed(
        negative: bool,
        q: u128,
        s: i32,
        inexact: bool,
        Ghost(n): Ghost<nat>,
        Ghost(d): Ghost<nat>,
    ) -> (r: Binary64)
        requires
            d > 0,
            q < 0x8000_0000_0000_0000_0000_0000_0000_0000,
            -100_000 <= s <= 100_000,
            brackets(n, d, q as nat, s as int, inexact),
            inexact ==> q >= 0x40_0000_0000_0000,
        ensures
            r@ == rounded(negative, n, d),
    {
        if q == 0 {
            proof {
                lemma_nothing(n, d, s as int);
            }
            return Binary64::settle(negative, 0, 0);
        }
        let len: u32 = bit_length(q);
        let t: i32 = len as i32 + s - 53;
        let k: i32 = if t > 0 {
            t
        } else {
            0
        };
        proof {
            lemma2_to64();
            lemma2_to64_rest();
            lemma_bracket_scale(n, d, q as nat, s as int, inexact, len as nat, k as nat);
            lemma_half_even_range(n, d, k as nat);
            if inexact && len < 55 {
                lemma_pow2_monotone(len as nat, 54);
            }
        }
        let m: u64 = if k > s {
            let shift: u32 = (k - s) as u32;
            if shift > 127 {
                proof {
                    lemma2_to64();
                    lemma2_to64_rest();
                    lemma_pow2_adds(63, 64);
                    lemma_pow2_monotone(127, (shift - 1) as nat);
                    lemma_pow2_strictly_increases((shift - 1) as nat, shift as nat);
                    lemma_bracket_shortened(n, d, q as nat, s as int, inexact, k as nat, 0, q as nat);
                }
                0
            } else {
                let p: u128 = power_of_two(shift);
                let h: u128 = power_of_two(shift - 1);
                let kept: u128 = q / p;
                let lost: u128 = q % p;
                proof {
                    lemma_fundamental_div_mod(q as int, p as int);
                    assert(q == kept * p + lost) by (nonlinear_arith)
                        requires
                            q == p * kept + lost,
                    ;
                    lemma_bracket_shortened(
                        n,
                        d,
                        q as nat,
                        s as int,
                        inexact,
                        k as nat,
                        kept as nat,
                        lost as nat,
                    );
                    lemma_pow2_monotone(len as nat, (53 + shift) as nat);
                    lemma_pow2_adds(53, shift as nat);
                    assert(kept < FULL_END) by (nonlinear_arith)
                        requires
                            q == kept * p + lost,
                            q < FULL_END * p,
                            lost >= 0,
                    ;
                }
                if lost > h || (lost == h && (inexact || kept % 2 == 1)) {
                    kept as u64 + 1
                } else {
                    kept as u64
                }
            }
        } else {
            proof {
                lemma_bracket_exact(n, d, q as nat, s as int, k as nat);
            }
            let gap: u32 = (s - k) as u32;
            proof {
                lemma_gap(q as nat, len as nat, gap as nat);
            }
            (q as u64) * (power_of_two(gap) as u64)
        };
        Binary64::settle(negative, m, k as u32)
    }
}

/// Brackets whose two sides have a power of two in common.
pub(crate) proof fn lemma_bracket_from(n: nat, d: nat, q: nat, u: nat, v: nat, inexact: bool)
    requires
        q * (d * pow2(u)) <= n * pow2(v) < (q + 1) * (d * pow2(u)),
        inexact == (n * pow2(v) != q * (d * pow2(u))),
    ensures
        brackets(n, d, q, u - v, inexact),
{
    let s = u - v;
    let up: nat = if s < 0 { -s as nat } else { 0 };
    let down: nat = if s > 0 { s as nat } else { 0 };
    let w: nat = if u < v { u } else { v };
    lemma_pow2_adds(up, w);
    lemma_pow2_adds(down, w);
    lemma_pow2_pos(w);
    let c = pow2(w);
    let a = n * pow2(up);
    let b = d * pow2(down);
    assert(n * pow2(v) == a * c) by (nonlinear_arith)
        requires
            pow2(v) == pow2(up) * c,
            a == n * pow2(up),
    ;
    assert(d * pow2(u) == b * c) by (nonlinear_arith)
        requires
            pow2(u) == pow2(down) * c,
            b == d * pow2(down),
    ;
    assert(q * (b * c) == (q * b) * c) by (nonlinear_arith);
    assert((q + 1) * (b * c) == ((q + 1) * b) * c) by (nonlinear_arith);
    assert(q * b <= a < (q + 1) * b) by (nonlinear_arith)
        requires
            (q * b) * c <= a * c < ((q + 1) * b) * c,
            c > 0,
    ;
    assert((a == q * b) == (a * c == (q * b) * c)) by (nonlinear_arith)
        requires
            c > 0,
    ;
}

/// A quotient has a scale, which is at least any one at which it does not fit.
proof fn lemma_scale_from(n: nat, d: nat, k: nat) -> (scale: nat)
    requires
        d > 0,
        k > 0 ==> n >= d * pow2((k + 52) as nat),
    ensures
        is_scale(n, d, scale),
        scale >= k,
    decreases
            if n < d * pow2(k + 53) {
                0
            } else {
                n - d * pow2(k + 53) + 1
            },
{
    lemma_pow2_pos(k + 53);
    assert(d * pow2(k + 53) > 0) by (nonlinear_arith)
        requires
            d > 0,
            pow2(k + 53) > 0,
    ;
    if n < d * pow2(k + 53) {
        k
    } else {
        lemma_pow2_strictly_increases(k + 53, k + 54);
        assert(d * pow2(k + 54) > d * pow2(k + 53)) by (nonlinear_arith)
            requires
                d > 0,
                pow2(k + 54) > pow2(k + 53),
        ;
        assert(k + 1 + 53 == k + 54);
        lemma_scale_from(n, d, k + 1)
    }
}

/// What is 2^1024 or more rounds to an infinity.
pub(crate) proof fn lemma_too_large(negative: bool, n: nat, d: nat)
    requires
        d > 0,
        n >= d * pow2(2098),
    ensures
        rounded(negative, n, d) == (Real64::Infinite { negative }),
{
    let k = lemma_scale_from(n, d, 2046);
    lemma_scale_unique(n, d, k);
}

/// What is less than half the smallest positive number rounds to zero.
pub(crate) proof fn lemma_too_small(negative: bool, n: nat, d: nat)
    requires
        2 * n < d,
    ensures
        rounded(negative, n, d) == (Real64::Finite { negative, mantissa: 0, scale: 0 }),
{
    lemma2_to64();
    lemma_pow2_pos(53);
    assert(n < d * pow2(53)) by (nonlinear_arith)
        requires
            2 * n < d,
            pow2(53) >= 1,
    ;
    assert(is_scale(n, d, 0));
    lemma_scale_unique(n, d, 0);
    assert(d * pow2(0) == d) by (nonlinear_arith)
        requires
            pow2(0) == 1,
    ;
    lemma_fundamental_div_mod_converse(n as int, d as int, 0, n as int);
}

/// An exact quotient brackets itself.
proof fn lemma_exact_bracket(n: nat, d: nat, q: nat, s: int)
    requires
        d > 0,
        n * pow2(if s < 0 { -s as nat } else { 0 }) == q * (d * pow2(if s > 0 { s as nat } else { 0 })),
    ensures
        brackets(n, d, q, s, false),
{
    let down: nat = if s > 0 { s as nat } else { 0 };
    lemma_pow2_pos(down);
    let b = d * pow2(down);
    assert(b > 0) by (nonlinear_arith)
        requires
            d > 0,
            pow2(down) > 0,
            b == d * pow2(down),
    ;
    assert((q + 1) * b == q * b + b) by (nonlinear_arith);
}

/// The product of two mantissas is the exact product, at the right scale.
proof fn lemma_product_bracket(m: nat, k: nat, o: nat, l: nat)
    ensures
        brackets(units(m, k) * units(o, l), one_in_units(), m * o, k + l - 1074, false),
        one_in_units() > 0,
{
    let s = k + l - 1074;
    let up: nat = if s < 0 { -s as nat } else { 0 };
    let down: nat = if s > 0 { s as nat } else { 0 };
    lemma_pow2_pos(1074);
    lemma_pow2_adds(k, l);
    lemma_pow2_adds(k + l, up);
    lemma_pow2_adds(1074, down);
    assert(k + l + up == 1074 + down);
    assert((m * pow2(k)) * (o * pow2(l)) == (m * o) * (pow2(k) * pow2(l))) by (nonlinear_arith);
    assert(((m * o) * pow2(k + l)) * pow2(up) == (m * o) * (pow2(k + l) * pow2(up))) by (nonlinear_arith);
    lemma_exact_bracket(units(m, k) * units(o, l), one_in_units(), m * o, s);
}

/// A quotient of mantissas brackets the quotient, at the right scale.
proof fn lemma_quotient_bracket(m: nat, k: nat, j: nat, o: nat, l: nat, q: nat, r: nat)
    requires
        o > 0,
        r < o,
        (m * pow2(j)) * pow2(74) == q * o + r,
    ensures
        brackets(
            units(m, k) * one_in_units(),
            units(o, l),
            q,
            k - j - l + 1000,
            r != 0,
        ),
        units(o, l) > 0,
{
    let s = k - j - l + 1000;
    let up: nat = if s < 0 { -s as nat } else { 0 };
    let down: nat = if s > 0 { s as nat } else { 0 };
    let n = units(m, k) * one_in_units();
    let d = units(o, l);
    let t = k + 1074;
    let g = j + 74;
    lemma_pow2_pos(l);
    lemma_pow2_pos(down);
    lemma_pow2_pos(g);
    lemma_pow2_adds(k, 1074);
    lemma_pow2_adds(j, 74);
    lemma_pow2_adds(t, up);
    lemma_pow2_adds(l, down);
    lemma_pow2_adds(l + down, g);
    assert(t + up == l + down + g);
    assert(d > 0) by (nonlinear_arith)
        requires
            o > 0,
            pow2(l) > 0,
            d == o * pow2(l),
    ;
    let w = pow2(l + down);
    assert(n == m * pow2(t)) by (nonlinear_arith)
        requires
            n == (m * pow2(k)) * pow2(1074),
            pow2(t) == pow2(k) * pow2(1074),
    ;
    let x = q * o + r;
    assert(x == m * pow2(g)) by (nonlinear_arith)
        requires
            x == (m * pow2(j)) * pow2(74),
            pow2(g) == pow2(j) * pow2(74),
    ;
    assert(n * pow2(up) == m * (w * pow2(g))) by (nonlinear_arith)
        requires
            n == m * pow2(t),
            pow2(t) * pow2(up) == w * pow2(g),
    ;
    assert(n * pow2(up) == x * w) by (nonlinear_arith)
        requires
            n * pow2(up) == m * (w * pow2(g)),
            x == m * pow2(g),
    ;
    let b = d * pow2(down);
    assert(b == o * w) by (nonlinear_arith)
        requires
            b == (o * pow2(l)) * pow2(down),
            w == pow2(l) * pow2(down),
    ;
    lemma_pow2_pos(l + down);
    assert(x * w == q * b + r * w) by (nonlinear_arith)
        requires
            x == q * o + r,
            b == o * w,
    ;
    assert(r * w < b) by (nonlinear_arith)
        requires
            r < o,
            b == o * w,
            w > 0,
    ;
    assert((r == 0) == (r * w == 0)) by (nonlinear_arith)
        requires
            w > 0,
    ;
    assert((q + 1) * b == q * b + b) by (nonlinear_arith);
}

/// A number of whole units of one is its own rounding.
proof fn lemma_whole_units(m: nat, k: nat)
    requires
        k >= 1074,
    ensures
        half_up(units(m, k), one_in_units()) == m * pow2((k - 1074) as nat),
{
    let one = one_in_units();
    let v = m * pow2((k - 1074) as nat);
    lemma_pow2_pos(1074);
    lemma_pow2_adds((k - 1074) as nat, 1074);
    assert(2 * units(m, k) + one == v * (2 * one) + one) by (nonlinear_arith)
        requires
            units(m, k) == m * (pow2((k - 1074) as nat) * one),
            v == m * pow2((k - 1074) as nat),
    ;
    lemma_fundamental_div_mod_converse((2 * units(m, k) + one) as int, (2 * one) as int, v as int, one as int);
}

/// A number with a fraction, at its own scale.
proof fn lemma_part_units(m: nat, k: nat, shift: nat)
    requires
        k + shift == 1074,
        m < FULL_END,
    ensures
        half_up(units(m, k), one_in_units()) == half_up(m, pow2(shift)),
        shift >= 55 ==> half_up(m, pow2(shift)) == 0,
{
    let c = pow2(k);
    let p = pow2(shift);
    lemma_pow2_pos(k);
    lemma_pow2_pos(shift);
    lemma_pow2_adds(k, shift);
    let a = 2 * m + p;
    let b = 2 * p;
    lemma_fundamental_div_mod(a as int, b as int);
    let q = (a / b) as int;
    let r = (a % b) as int;
    let x = 2 * units(m, k) + one_in_units();
    let y = 2 * one_in_units();
    assert(x == q * y + r * c) by (nonlinear_arith)
        requires
            x == 2 * (m * c) + c * p,
            y == 2 * (c * p),
            a == 2 * m + p,
            b == 2 * p,
            a == b * q + r,
    ;
    assert(0 <= r * c < y) by (nonlinear_arith)
        requires
            0 <= r < b,
            c > 0,
            y == 2 * (c * p),
            b == 2 * p,
    ;
    lemma_fundamental_div_mod_converse(x as int, y as int, q, r * c);
    if shift >= 55 {
        lemma2_to64_rest();
        lemma_pow2_monotone(55, shift);
        assert(a < b);
        lemma_fundamental_div_mod_converse(a as int, b as int, 0, a as int);
    }
}

/// A short `q` still fits in 53 bits after it has moved up to its scale.
proof fn lemma_gap(q: nat, len: nat, gap: nat)
    requires
        q < pow2(len),
        0 < q,
        len + gap <= 53,
    ensures
        q * pow2(gap) < FULL_END,
        q < FULL_END,
        0 < pow2(gap) <= FULL_END,
        gap <= 53,
{
    lemma2_to64_rest();
    lemma_pow2_adds(len, gap);
    lemma_pow2_monotone(len + gap, 53);
    lemma_pow2_monotone(gap, 53);
    lemma_pow2_monotone(len, 53);
    assert(q * pow2(gap) < pow2(len) * pow2(gap)) by (nonlinear_arith)
        requires
            q < pow2(len),
            pow2(gap) > 0,
    ;
}

/// Zero rounds to zero.
proof fn lemma_nothing(n: nat, d: nat, s: int)
    requires
        d > 0,
        exists|inexact: bool| brackets(n, d, 0, s, inexact) && !inexact,
    ensures
        n == 0,
        rounded(false, n, d) == (Real64::Finite { negative: false, mantissa: 0, scale: 0 }),
        rounded(true, n, d) == (Real64::Finite { negative: true, mantissa: 0, scale: 0 }),
{
    let up: nat = if s < 0 { -s as nat } else { 0 };
    lemma_pow2_pos(up);
    lemma2_to64();
    assert(n == 0) by (nonlinear_arith)
        requires
            n * pow2(up) == 0,
            pow2(up) > 0,
    ;
    lemma_pow2_pos(53);
    assert(0 < d * pow2(53)) by (nonlinear_arith)
        requires
            d > 0,
            pow2(53) > 0,
    ;
    lemma_scale_unique(n, d, 0);
    assert(d * pow2(0) == d) by (nonlinear_arith)
        requires
            pow2(0) == 1,
    ;
    assert(0nat / d == 0);
    assert(0nat % d == 0);
}

// ── Laws of rounding ─────────────────────────────────────────────────────────

/// The scale of `n / d`, and what it says of `n`.
proof fn lemma_scale(n: nat, d: nat) -> (scale: nat)
    requires
        d > 0,
    ensures
        scale == scale_of(n, d),
        is_scale(n, d, scale),
{
    let scale = lemma_scale_from(n, d, 0);
    lemma_scale_unique(n, d, scale);
    scale
}

/// Rounding to a whole number never passes a whole number.
proof fn lemma_half_even_at_most(n: nat, d: nat, m: nat)
    requires
        d > 0,
        n <= m * d,
    ensures
        half_even(n, d) <= m,
{
    let q = (n / d) as int;
    let r = (n % d) as int;
    lemma_fundamental_div_mod(n as int, d as int);
    assert(q <= m) by (nonlinear_arith)
        requires
            n == d * q + r,
            r >= 0,
            n <= m * d,
            d > 0,
    ;
    if q == m {
        assert(r == 0) by (nonlinear_arith)
            requires
                n == d * q + r,
                r >= 0,
                n <= m * d,
                q == m,
        ;
    }
}

/// Rounding to a whole number keeps at least a whole number.
proof fn lemma_half_even_at_least(n: nat, d: nat, m: nat)
    requires
        d > 0,
        n >= m * d,
    ensures
        half_even(n, d) >= m,
{
    let q = (n / d) as int;
    let r = (n % d) as int;
    lemma_fundamental_div_mod(n as int, d as int);
    assert(q >= m) by (nonlinear_arith)
        requires
            n == d * q + r,
            r < d,
            n >= m * d,
            d > 0,
    ;
}

/// Rounding never passes a binary64 number: what is at most `m * 2^k` units rounds to at most
/// that.
proof fn lemma_rounded_at_most(n: nat, d: nat, m: nat, k: nat)
    requires
        d > 0,
        m < FULL_END,
        k <= MAX_SCALE,
        n <= d * (m * pow2(k)),
    ensures
        rounded(false, n, d) matches Real64::Finite { negative, mantissa, scale } && !negative && units(
            mantissa,
            scale,
        ) <= m * pow2(k),
{
    let scale = lemma_scale(n, d);
    lemma_pow2_pos(k);
    lemma2_to64_rest();
    lemma_pow2_adds(k, 53);
    assert(m * pow2(k) < pow2(k + 53)) by (nonlinear_arith)
        requires
            m < FULL_END,
            pow2(k + 53) == pow2(k) * pow2(53),
            pow2(53) == FULL_END,
            pow2(k) > 0,
    ;
    assert(n < d * pow2(k + 53)) by (nonlinear_arith)
        requires
            n <= d * (m * pow2(k)),
            m * pow2(k) < pow2(k + 53),
            d > 0,
    ;
    if scale > k {
        lemma_pow2_monotone(k + 53, (scale + 52) as nat);
        assert(d * pow2(k + 53) <= d * pow2((scale + 52) as nat)) by (nonlinear_arith)
            requires
                pow2(k + 53) <= pow2((scale + 52) as nat),
        ;
    }
    let e = (k - scale) as nat;
    lemma_pow2_adds(e, scale);
    lemma_pow2_pos(scale);
    let unit = pow2(scale);
    assert(d * unit > 0) by (nonlinear_arith)
        requires
            d > 0,
            unit > 0,
    ;
    assert(m * pow2(k) == (m * pow2(e)) * unit) by (nonlinear_arith)
        requires
            pow2(k) == pow2(e) * unit,
    ;
    assert(n <= (m * pow2(e)) * (d * unit)) by (nonlinear_arith)
        requires
            n <= d * (m * pow2(k)),
            m * pow2(k) == (m * pow2(e)) * unit,
    ;
    lemma_half_even_at_most(n, d * unit, m * pow2(e));
    let h = half_even(n, d * unit);
    assert(h * unit <= m * pow2(k)) by (nonlinear_arith)
        requires
            h <= m * pow2(e),
            m * pow2(k) == (m * pow2(e)) * unit,
            unit > 0,
    ;
    if h == FULL_END {
        lemma_pow2_adds(1, scale);
        lemma2_to64();
        assert(FULL_END * unit == FULL * pow2(scale + 1)) by (nonlinear_arith)
            requires
                pow2(scale + 1) == 2 * unit,
                FULL_END == 2 * FULL,
        ;
        if scale == k {
            lemma_pow2_adds(scale, 53);
            assert(FULL_END * unit == pow2(k + 53)) by (nonlinear_arith)
                requires
                    pow2(k + 53) == unit * pow2(53),
                    pow2(53) == FULL_END,
            ;
        }
    }
}

/// Rounding keeps the order of two multiples of a unit.
proof fn lemma_rounded_monotone(a: nat, b: nat)
    requires
        a <= b,
        b < pow2(2098),
    ensures
        rounded(false, a, 1) matches Real64::Finite { negative: x, mantissa: m, scale: k } && rounded(false, b, 1)
            matches Real64::Finite { negative: y, mantissa: o, scale: l } && !x && !y && units(m, k) <= units(o, l)
            || rounded(false, b, 1) is Infinite,
{
    let k = lemma_scale(a, 1);
    let l = lemma_scale(b, 1);
    lemma2_to64_rest();
    lemma2_to64();
    lemma_pow2_pos(k);
    lemma_pow2_pos(l);
    if k > l {
        lemma_pow2_monotone(l + 53, (k + 52) as nat);
    }
    lemma_pow2_adds(53, k);
    lemma_pow2_adds(53, l);
    lemma_pow2_adds(1, k);
    lemma_pow2_adds(1, l);
    let h = half_even(a, pow2(k));
    let j = half_even(b, pow2(l));
    lemma_half_even_at_most(a, pow2(k), FULL_END as nat);
    lemma_half_even_at_most(b, pow2(l), FULL_END as nat);
    assert(1 * pow2(k) == pow2(k) && 1 * pow2(l) == pow2(l));
    // In units, each rounded number is its mantissa times its scale, also after a carry.
    assert(FULL_END * pow2(k) == FULL * pow2(k + 1)) by (nonlinear_arith)
        requires
            pow2(k + 1) == 2 * pow2(k),
            FULL_END == 2 * FULL,
    ;
    assert(FULL_END * pow2(l) == FULL * pow2(l + 1)) by (nonlinear_arith)
        requires
            pow2(l + 1) == 2 * pow2(l),
            FULL_END == 2 * FULL,
    ;
    if k == l {
        lemma_half_even_monotone(a, b, pow2(k));
        assert(h * pow2(k) <= j * pow2(k)) by (nonlinear_arith)
            requires
                h <= j,
        ;
    } else {
        lemma_pow2_adds(52, l);
        lemma_half_even_at_least(b, pow2(l), FULL as nat);
        lemma_pow2_monotone(k + 1, l);
        assert(h * pow2(k) <= j * pow2(l)) by (nonlinear_arith)
            requires
                h <= FULL_END,
                FULL_END * pow2(k) == FULL * pow2(k + 1),
                pow2(k + 1) <= pow2(l),
                j >= FULL,
                pow2(k) > 0,
        ;
    }
}

proof fn lemma_half_even_monotone(a: nat, b: nat, d: nat)
    requires
        a <= b,
        d > 0,
    ensures
        half_even(a, d) <= half_even(b, d),
{
    let q = (a / d) as int;
    let r = (a % d) as int;
    let p = (b / d) as int;
    let s = (b % d) as int;
    lemma_fundamental_div_mod(a as int, d as int);
    lemma_fundamental_div_mod(b as int, d as int);
    assert(q <= p) by (nonlinear_arith)
        requires
            a == d * q + r,
            b == d * p + s,
            0 <= r < d,
            0 <= s < d,
            a <= b,
    ;
    if q == p {
        assert(r <= s) by (nonlinear_arith)
            requires
                a == d * q + r,
                b == d * p + s,
                q == p,
                a <= b,
        ;
    }
}

/// The percentage that one count is of another that is not smaller lies between 0 and 100.
pub proof fn ratio_is_at_most_hundred(part: nat, whole: nat)
    requires
        part <= whole,
        0 < whole <= u64::MAX,
    ensures
        Real64::of(part).over(Real64::of(whole)).times(Real64::of(100)).at_most(100),
{
    let one = one_in_units();
    lemma_pow2_pos(1074);
    lemma2_to64();
    lemma2_to64_rest();
    lemma_pow2_adds(64, 1074);
    lemma_pow2_monotone(1138, 2098);
    assert(whole * one < pow2(2098)) by (nonlinear_arith)
        requires
            whole < pow2(64),
            one > 0,
            pow2(64) * one == pow2(1138),
            pow2(1138) <= pow2(2098),
    ;
    assert(part * one <= whole * one) by (nonlinear_arith)
        requires
            part <= whole,
    ;
    lemma_rounded_monotone(part * one, whole * one);
    lemma_whole_is_positive(whole);
    let u = Real64::of(part);
    let t = Real64::of(whole);
    let uu = units(u->mantissa, u->scale);
    let tt = units(t->mantissa, t->scale);
    assert(1 * pow2(1074) == one);
    assert(uu * one <= tt * (1 * pow2(1074))) by (nonlinear_arith)
        requires
            uu <= tt,
            one == pow2(1074),
    ;
    lemma_rounded_at_most(uu * one, tt, 1, 1074);
    let q = u.over(t);
    let qq = units(q->mantissa, q->scale);
    lemma_rounded_at_most(100 * one, 1, 100, 1074);
    let h = Real64::of(100);
    let hh = units(h->mantissa, h->scale);
    assert(qq * hh <= one * (100 * pow2(1074))) by (nonlinear_arith)
        requires
            qq <= one,
            hh <= 100 * pow2(1074),
            one == pow2(1074),
    ;
    lemma_rounded_at_most(qq * hh, one, 100, 1074);
}

/// The whole number zero is positive zero, which is between zero and anything.
pub proof fn zero_is_zero()
    ensures
        Real64::of(0) == Real64::zero(),
        forall|n: nat| #[trigger] Real64::zero().at_most(n),
{
    assert(0 * one_in_units() == 0) by (nonlinear_arith);
    lemma_too_small(false, 0, 1);
    lemma_pow2_pos(1074);
    assert forall|n: nat| #[trigger] Real64::zero().at_most(n) by {
        assert(units(0, 0) == 0 * pow2(0));
        assert(0 * pow2(0) == 0) by (nonlinear_arith);
        assert(n * one_in_units() >= 0) by (nonlinear_arith);
    }
}

/// Whether a whole number is a binary64 number.
pub open spec fn is_exact(v: nat) -> bool {
    Real64::of(v) matches Real64::Finite { negative, mantissa, scale } && !negative && units(mantissa, scale) == v
        * one_in_units()
}

/// A number of 53 bits times a power of two is held exactly, up to 2^153.
pub proof fn scaled_numbers_are_exact(a: nat, e: nat)
    requires
        a <= FULL_END,
        e <= 100,
    ensures
        is_exact(a * pow2(e)),
{
    if a == FULL_END {
        lemma2_to64();
        lemma_pow2_adds(1, e);
        assert(FULL * pow2(e + 1) == a * pow2(e)) by (nonlinear_arith)
            requires
                pow2(e + 1) == 2 * pow2(e),
                a == 2 * FULL,
        ;
        lemma_scaled_exact(FULL as nat, e + 1);
    } else {
        lemma_scaled_exact(a, e);
    }
}

proof fn lemma_scaled_exact(a: nat, e: nat)
    requires
        a < FULL_END,
        e <= 101,
    ensures
        is_exact(a * pow2(e)),
{
    let one = one_in_units();
    let v = a * pow2(e);
    let n = v * one;
    let top = e + 1074;
    lemma_pow2_pos(1074);
    lemma_pow2_pos(e);
    lemma_pow2_adds(e, 1074);
    assert(n == a * pow2(top)) by (nonlinear_arith)
        requires
            n == (a * pow2(e)) * one,
            pow2(top) == pow2(e) * one,
    ;
    lemma_rounded_at_most(n, 1, a, top);
    let k = lemma_scale(n, 1);
    lemma2_to64_rest();
    lemma2_to64();
    lemma_pow2_pos(k);
    lemma_pow2_pos(top);
    assert(1 * pow2(k) == pow2(k));
    if k > top {
        lemma_pow2_monotone(top + 53, (k + 52) as nat);
        lemma_pow2_adds(53, top);
        assert(n < pow2(top + 53)) by (nonlinear_arith)
            requires
                n == a * pow2(top),
                a < FULL_END,
                pow2(top + 53) == FULL_END * pow2(top),
                pow2(top) > 0,
        ;
    }
    let g = (top - k) as nat;
    lemma_pow2_adds(g, k);
    assert(n == (a * pow2(g)) * pow2(k)) by (nonlinear_arith)
        requires
            n == a * pow2(top),
            pow2(top) == pow2(g) * pow2(k),
    ;
    lemma_half_even_at_least(n, pow2(k), a * pow2(g));
    let h = half_even(n, pow2(k));
    assert(h * pow2(k) >= n) by (nonlinear_arith)
        requires
            h >= a * pow2(g),
            n == (a * pow2(g)) * pow2(k),
            pow2(k) > 0,
    ;
    lemma_pow2_adds(1, k);
    assert(FULL_END * pow2(k) == FULL * pow2(k + 1)) by (nonlinear_arith)
        requires
            pow2(k + 1) == 2 * pow2(k),
            FULL_END == 2 * FULL,
    ;
}

/// What is held exactly comes back as it was.
pub proof fn exact_numbers_come_back(v: nat)
    requires
        is_exact(v),
        v <= u64::MAX,
    ensures
        Real64::of(v).to_u64() == v,
{
    let one = one_in_units();
    let n = v * one;
    lemma_pow2_pos(1074);
    assert(2 * n + one == v * (2 * one) + one) by (nonlinear_arith)
        requires
            n == v * one,
    ;
    lemma_fundamental_div_mod_converse((2 * n + one) as int, (2 * one) as int, v as int, one as int);
}

/// What 53 bits hold is held exactly, and comes back as it was.
pub proof fn whole_numbers_are_exact(v: nat)
    requires
        v <= FULL_END,
    ensures
        is_exact(v),
        Real64::of(v).to_u64() == v,
{
    lemma2_to64();
    assert(v * pow2(0) == v) by (nonlinear_arith)
        requires
            pow2(0) == 1,
    ;
    scaled_numbers_are_exact(v, 0);
    exact_numbers_come_back(v);
}

/// A whole number that is not zero has a binary64 number above zero, never an infinity below 2^64.
pub(crate) proof fn lemma_whole_is_positive(v: nat)
    requires
        0 < v <= u64::MAX,
    ensures
        Real64::of(v) matches Real64::Finite { negative, mantissa, scale } && !negative && mantissa > 0 && units(
            mantissa,
            scale,
        ) > 0,
{
    let n = v * one_in_units();
    lemma2_to64();
    lemma2_to64_rest();
    lemma_pow2_pos(1074);
    assert(n >= pow2(1074)) by (nonlinear_arith)
        requires
            n == v * pow2(1074),
            v >= 1,
    ;
    lemma_pow2_adds(11, 1074);
    assert(2048 * pow2(1074) == pow2(1085));
    assert(n <= 1 * (FULL * pow2(1086))) by {
        lemma_pow2_adds(52, 1086);
        lemma_pow2_adds(64, 1074);
        assert(pow2(52) * pow2(1086) == pow2(1138));
        assert(v * pow2(1074) <= pow2(64) * pow2(1074)) by (nonlinear_arith)
            requires
                v <= pow2(64),
        ;
    }
    lemma_rounded_at_most(n, 1, FULL as nat, 1086);
    let k = lemma_scale(n, 1);
    if k == 0 {
        lemma_pow2_monotone(53, 1074);
        assert(pow2(53) <= pow2(1074));
        assert(false);
    }
    lemma_pow2_pos(k);
    lemma_pow2_adds(52, k);
    lemma_half_even_at_least(n, pow2(k), FULL as nat);
    assert(1 * pow2(k) == pow2(k));
    let x = Real64::of(v);
    lemma_pow2_pos(x->scale);
    assert(units(x->mantissa, x->scale) > 0) by (nonlinear_arith)
        requires
            x->mantissa > 0,
            pow2(x->scale) > 0,
            units(x->mantissa, x->scale) == x->mantissa * pow2(x->scale),
    ;
}

/// A common factor does not change the rounded quotient.
proof fn lemma_rounded_common_factor(negative: bool, n: nat, d: nat, c: nat)
    requires
        d > 0,
        c > 0,
    ensures
        rounded(negative, n * c, d * c) == rounded(negative, n, d),
{
    let k = lemma_scale(n, d);
    assert(d * c > 0) by (nonlinear_arith)
        requires
            d > 0,
            c > 0,
    ;
    assert((d * c) * pow2(k + 53) == (d * pow2(k + 53)) * c) by (nonlinear_arith);
    assert(n * c < (d * pow2(k + 53)) * c) by (nonlinear_arith)
        requires
            n < d * pow2(k + 53),
            c > 0,
    ;
    if k > 0 {
        let low = pow2((k + 52) as nat);
        assert((d * c) * low == (d * low) * c) by (nonlinear_arith);
        assert(n * c >= (d * low) * c) by (nonlinear_arith)
            requires
                n >= d * low,
        ;
    }
    lemma_scale_unique(n * c, d * c, k);
    lemma_pow2_pos(k);
    assert(d * pow2(k) > 0) by (nonlinear_arith)
        requires
            d > 0,
            pow2(k) > 0,
    ;
    assert((d * c) * pow2(k) == (d * pow2(k)) * c) by (nonlinear_arith);
    lemma_half_even_common_factor(n, d * pow2(k), c);
}

/// The product of numbers that are held exactly is the number nearest to their product.
pub proof fn exact_products(a: nat, b: nat)
    requires
        is_exact(a),
        is_exact(b),
    ensures
        Real64::of(a).times(Real64::of(b)) == Real64::of(a * b),
{
    let one = one_in_units();
    lemma_pow2_pos(1074);
    assert((a * one) * (b * one) == ((a * b) * one) * one) by (nonlinear_arith);
    assert(1 * one == one);
    lemma_rounded_common_factor(false, (a * b) * one, 1, one);
}

// ── Ratios of counts ─────────────────────────────────────────────────────────

/// A 64-bit count is a finite number of at most 2^64, and of at least one where it is not zero.
proof fn lemma_count_bounds(v: nat)
    requires
        v <= u64::MAX,
    ensures
        Real64::of(v).at_most(pow2(64)),
        v > 0 ==> Real64::of(v)->mantissa > 0 && units(Real64::of(v)->mantissa, Real64::of(v)->scale)
            >= one_in_units(),
{
    let one = one_in_units();
    lemma2_to64();
    lemma_pow2_pos(1074);
    lemma_pow2_adds(64, 1074);
    assert(v * one <= 1 * (1 * pow2(1138))) by (nonlinear_arith)
        requires
            v <= pow2(64),
            pow2(1138) == pow2(64) * one,
            one > 0,
    ;
    lemma_rounded_at_most(v * one, 1, 1, 1138);
    if v > 0 {
        lemma_whole_is_positive(v);
        lemma_pow2_monotone(1139, 2098);
        lemma_pow2_adds(1, 1138);
        assert(1 * one <= v * one) by (nonlinear_arith)
            requires
                v >= 1,
        ;
        lemma_rounded_monotone(1 * one, v * one);
        whole_numbers_are_exact(1);
    }
}

/// A ratio of counts is finite and not negative.
proof fn lemma_ratio_bounds(part: nat, whole: nat)
    requires
        part <= u64::MAX,
        0 < whole <= u64::MAX,
    ensures
        Real64::of(part).over(Real64::of(whole)).at_most(pow2(64)),
{
    let one = one_in_units();
    lemma_count_bounds(part);
    lemma_count_bounds(whole);
    lemma_pow2_pos(1074);
    lemma_pow2_pos(64);
    lemma_pow2_adds(64, 1074);
    let u = Real64::of(part);
    let t = Real64::of(whole);
    let uu = units(u->mantissa, u->scale);
    let tt = units(t->mantissa, t->scale);
    let big = pow2(1138);
    assert(1 * big == big);
    assert(uu * one <= tt * (1 * big)) by (nonlinear_arith)
        requires
            uu <= big,
            one <= tt,
            one > 0,
    ;
    lemma_rounded_at_most(uu * one, tt, 1, 1138);
}

/// A product of a number of at most `2^e` and one of at most `m * 2^f` is finite and not negative.
proof fn lemma_product_bounds(x: Real64, e: nat, y: Real64, m: nat, f: nat)
    requires
        x.at_most(pow2(e)),
        y.at_most(m * pow2(f)),
        m < FULL_END,
        e + f <= 900,
    ensures
        x.times(y).at_most(m * pow2(e + f)),
{
    let one = one_in_units();
    let a = units(x->mantissa, x->scale);
    let b = units(y->mantissa, y->scale);
    let top = e + f + 1074;
    lemma_pow2_pos(1074);
    lemma_pow2_adds(e, f);
    lemma_pow2_adds(e + f, 1074);
    assert((m * pow2(e + f)) * one == m * pow2(top)) by (nonlinear_arith)
        requires
            pow2(top) == pow2(e + f) * one,
    ;
    assert(a * b <= (pow2(e) * one) * ((m * pow2(f)) * one)) by (nonlinear_arith)
        requires
            0 <= a <= pow2(e) * one,
            0 <= b <= (m * pow2(f)) * one,
    ;
    assert((pow2(e) * one) * ((m * pow2(f)) * one) == one * (m * pow2(top))) by (nonlinear_arith)
        requires
            pow2(e + f) == pow2(e) * pow2(f),
            pow2(top) == pow2(e + f) * one,
    ;
    lemma_rounded_at_most(a * b, one, m, top);
}

/// A ratio of counts in percent is finite and not negative.
pub proof fn ratio_in_percent_is_an_amount(part: nat, whole: nat)
    requires
        part <= u64::MAX,
        0 < whole <= u64::MAX,
    ensures
        Real64::of(part).over(Real64::of(whole)).times(Real64::of(100)).is_amount(),
{
    lemma2_to64();
    lemma_ratio_bounds(part, whole);
    whole_numbers_are_exact(100);
    assert(100 * pow2(0) == 100);
    lemma_product_bounds(Real64::of(part).over(Real64::of(whole)), 64, Real64::of(100), 100, 0);
}

/// A ratio of counts, times a count, in percent is finite and not negative.
pub proof fn scaled_ratio_in_percent_is_an_amount(part: nat, whole: nat, factor: nat)
    requires
        part <= u64::MAX,
        0 < whole <= u64::MAX,
        factor <= u64::MAX,
    ensures
        Real64::of(part).over(Real64::of(whole)).times(Real64::of(factor)).times(Real64::of(100)).is_amount(),
{
    lemma2_to64();
    lemma_ratio_bounds(part, whole);
    lemma_count_bounds(factor);
    whole_numbers_are_exact(100);
    let q = Real64::of(part).over(Real64::of(whole));
    assert(1 * pow2(64) == pow2(64) && 1 * pow2(128) == pow2(128) && 100 * pow2(0) == 100);
    lemma_product_bounds(q, 64, Real64::of(factor), 1, 64);
    lemma_product_bounds(q.times(Real64::of(factor)), 128, Real64::of(100), 100, 0);
}

} // verus!
