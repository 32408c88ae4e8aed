//! Decimal numbers in text, as binary64 numbers.

use vstd::arithmetic::power2::{lemma2_to64, lemma_pow2_adds, lemma_pow2_pos, pow2};
use vstd::prelude::*;

use crate::binary64::{
    brackets, lemma_bracket_from, lemma_pow2_monotone, lemma_too_large, lemma_too_small, one_in_units,
    rounded, Binary64, Real64,
};
use crate::natural::Natural;
use crate::text::{all_digits, characters, decimal_value, digit_value, is_digit};

verus! {

// ── What a decimal number is ─────────────────────────────────────────────────

/// `10^e`.
pub open spec fn pow10(e: nat) -> nat
    decreases e,
{
    if e == 0 {
        1
    } else {
        10 * pow10((e - 1) as nat)
    }
}

/// Whether `c` starts an exponent.
pub open spec fn is_mark(c: char) -> bool {
    c == 'e' || c == 'E'
}

/// Position of the first exponent mark in `s`, its length where there is none.
pub open spec fn mark_position(s: Seq<char>) -> nat
    decreases s.len(),
{
    if s.len() == 0 || is_mark(s[0]) {
        0
    } else {
        1 + mark_position(s.drop_first())
    }
}

/// Position of the first point in `s`, its length where there is none.
pub open spec fn point_position(s: Seq<char>) -> nat
    decreases s.len(),
{
    if s.len() == 0 || s[0] == '.' {
        0
    } else {
        1 + point_position(s.drop_first())
    }
}

/// `s` without one leading sign.
pub open spec fn unsigned_part(s: Seq<char>) -> Seq<char> {
    if s.len() > 0 && (s[0] == '+' || s[0] == '-') {
        s.drop_first()
    } else {
        s
    }
}

/// Whether `s` begins with a minus sign.
pub open spec fn is_minus(s: Seq<char>) -> bool {
    s.len() > 0 && s[0] == '-'
}

/// The exponent that `s`, the text behind the mark, writes.
pub open spec fn exponent_value(s: Seq<char>) -> Option<int> {
    let digits = unsigned_part(s);
    if digits.len() > 0 && all_digits(digits) {
        Some(
            if is_minus(s) {
                -decimal_value(digits)
            } else {
                decimal_value(digits) as int
            },
        )
    } else {
        None
    }
}

/// The digits that stand before an exponent, and how many of them are behind the point: there is at
/// least one, and nothing else but at most one point.
pub open spec fn mantissa_digits(head: Seq<char>) -> Option<(Seq<char>, nat)> {
    let point = point_position(head) as int;
    let whole = head.take(point);
    let part = if point < head.len() {
        head.skip(point + 1)
    } else {
        seq![]
    };
    if all_digits(whole) && all_digits(part) && whole.len() + part.len() > 0 {
        Some((whole + part, part.len()))
    } else {
        None
    }
}

/// A number in decimal notation: `digits * 10^exponent`, with a sign.
pub struct Decimal {
    pub negative: bool,
    pub digits: nat,
    pub exponent: int,
}

/// The number that `s` writes: an optional sign, digits with at most one point among them, and an
/// optional exponent.
pub open spec fn decimal_of(s: Seq<char>) -> Option<Decimal> {
    let body = unsigned_part(s);
    let mark = mark_position(body) as int;
    let exponent = if mark < body.len() {
        exponent_value(body.skip(mark + 1))
    } else {
        Some(0)
    };
    match (mantissa_digits(body.take(mark)), exponent) {
        (Some((digits, places)), Some(e)) => Some(
            Decimal { negative: is_minus(s), digits: decimal_value(digits), exponent: e - places },
        ),
        _ => None,
    }
}

impl Decimal {
    /// The nearest binary64 number.
    pub open spec fn nearest(self) -> Real64 {
        if self.exponent >= 0 {
            rounded(
                self.negative,
                (self.digits * pow10(self.exponent as nat)) * one_in_units(),
                1,
            )
        } else {
            rounded(self.negative, self.digits * one_in_units(), pow10((-self.exponent) as nat))
        }
    }
}

// ── Powers of ten ────────────────────────────────────────────────────────────

proof fn lemma_pow10_adds(a: nat, b: nat)
    ensures
        pow10(a + b) == pow10(a) * pow10(b),
        pow10(a) > 0,
    decreases a,
{
    if a == 0 {
        assert(pow10(0) * pow10(b) == pow10(b)) by (nonlinear_arith)
            requires
                pow10(0) == 1,
        ;
    } else {
        lemma_pow10_adds((a - 1) as nat, b);
        assert((a + b - 1) as nat == (a - 1) as nat + b);
        assert(10 * (pow10((a - 1) as nat) * pow10(b)) == (10 * pow10((a - 1) as nat)) * pow10(b))
            by (nonlinear_arith);
    }
}

proof fn lemma_pow10_monotone(a: nat, b: nat)
    requires
        a <= b,
    ensures
        0 < pow10(a) <= pow10(b),
{
    lemma_pow10_adds(a, (b - a) as nat);
    lemma_pow10_adds((b - a) as nat, 0);
    assert(pow10(a) <= pow10(a) * pow10((b - a) as nat)) by (nonlinear_arith)
        requires
            pow10(a) > 0,
            pow10((b - a) as nat) > 0,
    ;
}

/// `8^e <= 10^e <= 16^e`.
proof fn lemma_pow10_between(e: nat)
    ensures
        pow2(3 * e) <= pow10(e) <= pow2(4 * e),
    decreases e,
{
    lemma2_to64();
    if e > 0 {
        let f = (e - 1) as nat;
        lemma_pow10_between(f);
        lemma_pow2_adds(3 * f, 3);
        lemma_pow2_adds(4 * f, 4);
        assert(3 * e == 3 * f + 3);
        assert(4 * e == 4 * f + 4);
        assert(pow2(3) == 8);
        assert(pow2(4) == 16);
        assert(pow2(3 * f) * 8 <= 10 * pow10(f)) by (nonlinear_arith)
            requires
                pow2(3 * f) <= pow10(f),
        ;
        assert(10 * pow10(f) <= pow2(4 * f) * 16) by (nonlinear_arith)
            requires
                pow10(f) <= pow2(4 * f),
        ;
    }
}

// ── Reading the digits ───────────────────────────────────────────────────────

/// Number of digits from the first one that is not zero on.
pub open spec fn significant(s: Seq<char>) -> nat
    decreases s.len(),
{
    if s.len() == 0 {
        0
    } else {
        let before = significant(s.drop_last());
        if before == 0 && digit_value(s.last()) == 0 {
            0
        } else {
            before + 1
        }
    }
}

proof fn lemma_significant(s: Seq<char>)
    requires
        all_digits(s),
    ensures
        significant(s) <= s.len(),
        significant(s) == 0 <==> decimal_value(s) == 0,
        significant(s) > 0 ==> pow10((significant(s) - 1) as nat) <= decimal_value(s),
        decimal_value(s) < pow10(significant(s)),
    decreases s.len(),
{
    if s.len() > 0 {
        let t = s.drop_last();
        assert(all_digits(t)) by {
            assert forall|i: int| 0 <= i < t.len() implies is_digit(#[trigger] t[i]) by {
                assert(t[i] == s[i]);
            }
        }
        lemma_significant(t);
        assert(is_digit(s[s.len() - 1]));
        assert(pow10(1) == 10 * pow10(0));
    }
}

/// Appends the digits between two positions to `number`, and counts them.
fn read_digits(
    all: &Vec<char>,
    from: usize,
    to: usize,
    number: &mut Natural,
    count: usize,
    Ghost(before): Ghost<Seq<char>>,
) -> (r: Option<usize>)
    requires
        from <= to <= all.len(),
        old(number).value() == decimal_value(before),
        count == significant(before),
        count <= from,
    ensures
        match r {
            Some(c) => all_digits(all@.subrange(from as int, to as int)) && final(number).value()
                == decimal_value(before + all@.subrange(from as int, to as int)) && c == significant(
                before + all@.subrange(from as int, to as int),
            ) && c <= to,
            None => !all_digits(all@.subrange(from as int, to as int)),
        },
{
    let ghost t = all@.subrange(from as int, to as int);
    let mut c: usize = count;
    let mut i: usize = from;
    proof {
        assert(before + t.take(0) == before);
    }
    while i < to
        invariant
            from <= i <= to <= all.len(),
            t == all@.subrange(from as int, to as int),
            number.value() == decimal_value(before + t.take(i - from)),
            c == significant(before + t.take(i - from)),
            c <= i,
            forall|j: int| 0 <= j < i - from ==> is_digit(#[trigger] t[j]),
        decreases to - i,
    {
        let x: char = all[i];
        assert(t[i - from] == x);
        if !('0' <= x && x <= '9') {
            return None;
        }
        let d: u32 = x as u32 - 48;
        proof {
            let now = before + t.take(i - from + 1);
            assert(now.drop_last() == before + t.take(i - from));
            assert(now.last() == x);
        }
        number.mul_add(10, d);
        if c > 0 || d > 0 {
            c = c + 1;
        }
        i = i + 1;
    }
    proof {
        assert(t.take(t.len() as int) == t);
    }
    Some(c)
}

/// Multiplies `number` by ten `times` times.
fn times_ten(number: &mut Natural, times: u128)
    ensures
        final(number).value() == old(number).value() * pow10(times as nat),
{
    let mut i: u128 = 0;
    let ghost start = number.value();
    proof {
        assert(start * pow10(0) == start) by (nonlinear_arith)
            requires
                pow10(0) == 1,
        ;
    }
    while i < times
        invariant
            i <= times,
            number.value() == start * pow10(i as nat),
        decreases times - i,
    {
        number.mul_add(10, 0);
        proof {
            assert(start * (10 * pow10(i as nat)) == (start * pow10(i as nat)) * 10) by (nonlinear_arith);
        }
        i = i + 1;
    }
}

/// An exponent as far as it matters: exact below `FAR`, at least `FAR` where it is larger.
const FAR: i128 = 0x10_0000_0000_0000_0000_0000_0000;

/// Size of the exponent that the digits from position `from` on write.
fn read_exponent(all: &Vec<char>, from: usize) -> (r: Option<i128>)
    requires
        from <= all.len(),
    ensures
        ({
            let t = all@.skip(from as int);
            match r {
                Some(v) => t.len() > 0 && all_digits(t) && 0 <= v <= decimal_value(t) && v < 20 * FAR && (v < FAR
                    ==> v == decimal_value(t)),
                None => t.len() == 0 || !all_digits(t),
            }
        }),
{
    let ghost t = all@.skip(from as int);
    if from == all.len() {
        return None;
    }
    let mut v: i128 = 0;
    let mut i: usize = from;
    while i < all.len()
        invariant
            from <= i <= all.len(),
            t == all@.skip(from as int),
            0 <= v <= decimal_value(t.take(i - from)),
            v < FAR ==> v == decimal_value(t.take(i - from)),
            v < 20 * FAR,
            forall|j: int| 0 <= j < i - from ==> is_digit(#[trigger] t[j]),
        decreases all.len() - i,
    {
        let x: char = all[i];
        assert(t[i - from] == x);
        if !('0' <= x && x <= '9') {
            return None;
        }
        proof {
            let now = t.take(i - from + 1);
            assert(now.drop_last() == t.take(i - from));
            assert(now.last() == x);
        }
        if v < FAR {
            v = v * 10 + (x as i128 - 48);
        }
        i = i + 1;
    }
    proof {
        assert(t.take(t.len() as int) == t);
    }
    Some(v)
}

// ── Rounding ─────────────────────────────────────────────────────────────────

/// The 65 leading bits of `a / c`.
fn divide(a: Natural, c: Natural) -> (r: (u128, i32, bool))
    requires
        a.value() > 0,
        c.value() > 0,
        a.value() <= c.value() * pow2(2000),
        c.value() <= a.value() * pow2(2000),
    ensures
        brackets(a.value() * one_in_units(), c.value(), r.0 as nat, r.1 as int, r.2),
        0x1_0000_0000_0000_0000 <= r.0 < 0x2_0000_0000_0000_0000,
        -10_000 <= r.1 <= 10_000,
{
    let ghost a0 = a.value();
    let ghost c0 = c.value();
    let mut rest: Natural = a;
    let mut part: Natural = c;
    let mut u: i32 = 0;
    let mut v: i32 = 0;
    proof {
        lemma2_to64();
        assert(c0 * pow2(0) == c0 && a0 * pow2(0) == a0) by (nonlinear_arith)
            requires
                pow2(0) == 1,
        ;
    }
    while u < 64
        invariant
            0 <= u <= 64,
            part.value() == c0 * pow2(u as nat),
        decreases 64 - u,
    {
        part.mul_add(2, 0);
        proof {
            lemma2_to64();
            lemma_pow2_adds(u as nat, 1);
            assert(c0 * (pow2(u as nat) * 2) == (c0 * pow2(u as nat)) * 2) by (nonlinear_arith);
        }
        u = u + 1;
    }
    while !rest.at_least(&part)
        invariant
            0 <= v <= 2064,
            a0 > 0,
            rest.value() == a0 * pow2(v as nat),
            part.value() == c0 * pow2(64),
            c0 <= a0 * pow2(2000),
        decreases 2064 - v,
    {
        proof {
            lemma2_to64();
            lemma_pow2_adds(2000, 64);
            if v == 2064 {
                assert(c0 * pow2(64) <= a0 * pow2(2064)) by (nonlinear_arith)
                    requires
                        c0 <= a0 * pow2(2000),
                        pow2(2064) == pow2(2000) * pow2(64),
                        pow2(64) >= 0,
                ;
            }
            lemma_pow2_adds(v as nat, 1);
            assert(a0 * (pow2(v as nat) * 2) == (a0 * pow2(v as nat)) * 2) by (nonlinear_arith);
        }
        rest.mul_add(2, 0);
        v = v + 1;
    }
    let ghost shifted = a0 * pow2(v as nat);
    part.mul_add(2, 0);
    u = 65;
    proof {
        lemma_pow2_adds(64, 1);
        assert(c0 * (pow2(64) * 2) == (c0 * pow2(64)) * 2) by (nonlinear_arith);
        assert(part.value() == c0 * pow2(65));
    }
    while rest.at_least(&part)
        invariant
            65 <= u <= 4165,
            0 <= v <= 2064,
            c0 > 0,
            rest.value() == shifted == a0 * pow2(v as nat),
            part.value() == c0 * pow2(u as nat),
            2 * shifted >= part.value(),
            a0 <= c0 * pow2(2000),
        decreases 4165 - u,
    {
        proof {
            lemma2_to64();
            lemma_pow2_adds(u as nat, 1);
            assert(c0 * (pow2(u as nat) * 2) == (c0 * pow2(u as nat)) * 2) by (nonlinear_arith);
            if u == 4165 {
                lemma_pow2_monotone(v as nat, 2064);
                lemma_pow2_adds(2000, 2064);
                vstd::arithmetic::power2::lemma_pow2_strictly_increases(4064, 4165);
                assert(a0 * pow2(v as nat) < c0 * pow2(4165)) by (nonlinear_arith)
                    requires
                        a0 <= c0 * pow2(2000),
                        pow2(v as nat) <= pow2(2064),
                        pow2(2000) * pow2(2064) < pow2(4165),
                        c0 > 0,
                        pow2(2000) >= 0,
                ;
            }
        }
        part.mul_add(2, 0);
        u = u + 1;
    }
    let mut q: u128 = 0;
    let mut i: i32 = 0;
    let ghost p = part.value();
    proof {
        lemma2_to64();
        assert(shifted * pow2(0) == shifted) by (nonlinear_arith)
            requires
                pow2(0) == 1,
        ;
    }
    while i < 65
        invariant
            0 <= i <= 65,
            part.value() == p,
            rest.value() < p,
            p > 0,
            shifted < p,
            shifted * pow2(i as nat) == q * p + rest.value(),
            q < pow2(i as nat),
        decreases 65 - i,
    {
        proof {
            lemma2_to64();
            lemma_pow2_adds(i as nat, 1);
            lemma_pow2_monotone(i as nat, 64);
            assert(shifted * (pow2(i as nat) * 2) == (q * 2) * p + rest.value() * 2) by (nonlinear_arith)
                requires
                    shifted * pow2(i as nat) == q * p + rest.value(),
            ;
            assert((q * 2 + 1) * p == (q * 2) * p + p) by (nonlinear_arith);
        }
        rest.mul_add(2, 0);
        q = q * 2;
        if rest.at_least(&part) {
            rest.subtract(&part);
            q = q + 1;
        }
        i = i + 1;
    }
    let inexact: bool = !rest.is_zero();
    let s: i32 = u - v - 65 + 1074;
    proof {
        lemma2_to64();
        lemma_pow2_adds(64, 1);
        assert(pow2(65) == 0x2_0000_0000_0000_0000);
        let r = rest.value();
        assert(q >= pow2(64)) by (nonlinear_arith)
            requires
                shifted * pow2(65) == q * p + r,
                r < p,
                2 * shifted >= p,
                pow2(65) == pow2(64) * 2,
                p > 0,
        ;
        let n = a0 * one_in_units();
        let up = (v + 65) as nat;
        let down = (u + 1074) as nat;
        lemma_pow2_adds(v as nat, 65);
        lemma_pow2_adds(u as nat, 1074);
        let one = one_in_units();
        lemma_pow2_pos(1074);
        assert(n * pow2(up) == (shifted * pow2(65)) * one) by (nonlinear_arith)
            requires
                n == a0 * one,
                pow2(up) == pow2(v as nat) * pow2(65),
                shifted == a0 * pow2(v as nat),
        ;
        assert(c0 * pow2(down) == p * one) by (nonlinear_arith)
            requires
                pow2(down) == pow2(u as nat) * one,
                p == c0 * pow2(u as nat),
        ;
        assert(q * (p * one) == (q * p) * one) by (nonlinear_arith);
        assert((q + 1) * (p * one) == (q * p + p) * one) by (nonlinear_arith);
        let x = (q * p) as nat;
        assert((x * one <= (x + r) * one) && ((x + r) * one < (x + p) * one) && (((x + r) * one == x * one) == (r == 0)))
            by (nonlinear_arith)
            requires
                0 <= r < p,
                one > 0,
        ;
        lemma_bracket_from(n, c0, q as nat, down, up, inexact);
    }
    (q, s, inexact)
}

/// A leading digit at `10^400` or above makes an infinity.
proof fn lemma_far_above(x: Decimal, sig: nat)
    requires
        sig > 0,
        pow10((sig - 1) as nat) <= x.digits,
        sig - 1 + x.exponent >= 400,
    ensures
        x.nearest() == (Real64::Infinite { negative: x.negative }),
{
    let lead = (sig - 1) as nat;
    let one = one_in_units();
    lemma_pow10_between(400);
    lemma_pow2_adds(1200, 1074);
    lemma_pow2_monotone(2098, 2274);
    lemma_pow2_pos(1074);
    if x.exponent >= 0 {
        let e = x.exponent as nat;
        lemma_pow10_adds(lead, e);
        lemma_pow10_monotone(400, lead + e);
        let v = x.digits * pow10(e);
        assert(v >= pow10(lead) * pow10(e)) by (nonlinear_arith)
            requires
                x.digits >= pow10(lead),
                v == x.digits * pow10(e),
        ;
        assert(v * one >= 1 * pow2(2098)) by (nonlinear_arith)
            requires
                v >= pow2(1200),
                pow2(1200) * one >= pow2(2098),
                one > 0,
        ;
        lemma_too_large(x.negative, v * one, 1);
    } else {
        let e = (-x.exponent) as nat;
        let d = pow10(e);
        lemma_pow10_adds(e, 400);
        lemma_pow10_monotone(e + 400, lead);
        let n = x.digits * one;
        assert(n >= d * pow2(2098)) by (nonlinear_arith)
            requires
                x.digits >= d * pow10(400),
                pow10(400) >= pow2(1200),
                pow2(1200) * one >= pow2(2098),
                n == x.digits * one,
                d > 0,
                one > 0,
        ;
        lemma_too_large(x.negative, n, d);
    }
}

/// A leading digit below `10^-400` makes a zero.
proof fn lemma_far_below(x: Decimal, sig: nat)
    requires
        x.digits < pow10(sig),
        sig + x.exponent <= -400,
    ensures
        x.nearest() == (Real64::Finite { negative: x.negative, mantissa: 0, scale: 0 }),
{
    let one = one_in_units();
    let e = (-x.exponent) as nat;
    let d = pow10(e);
    lemma_pow10_between(400);
    lemma_pow10_adds(sig, 400);
    lemma_pow10_monotone(sig + 400, e);
    lemma2_to64();
    lemma_pow2_adds(1074, 1);
    lemma_pow2_monotone(1075, 1200);
    lemma_pow2_pos(1074);
    let n = x.digits * one;
    assert(2 * n < d) by (nonlinear_arith)
        requires
            n == x.digits * one,
            x.digits + 1 <= pow10(sig),
            d >= pow10(sig) * pow10(400),
            pow10(400) >= 2 * one,
            one > 0,
    ;
    lemma_too_small(x.negative, n, d);
}

/// The binary64 number nearest to a decimal number whose leading digit is not far from the point.
fn round_near(negative: bool, digits: Natural, exponent: i128, Ghost(sig): Ghost<nat>) -> (r: Binary64)
    requires
        sig > 0,
        pow10((sig - 1) as nat) <= digits.value() < pow10(sig),
        -400 <= sig - 1 + exponent < 400,
        -0x1_0000_0000_0000_0000_0000 < exponent < 0x1_0000_0000_0000_0000_0000,
    ensures
        r@ == (Decimal { negative, digits: digits.value(), exponent: exponent as int }).nearest(),
{
    let ghost x = Decimal { negative, digits: digits.value(), exponent: exponent as int };
    let ghost lead = (sig - 1) as nat;
    let mut a: Natural = digits;
    let mut c: Natural = Natural::one();
    proof {
        lemma_pow10_monotone(0, lead);
        lemma_pow10_between(400);
        lemma_pow2_monotone(1600, 2000);
    }
    if exponent >= 0 {
        times_ten(&mut a, exponent as u128);
        proof {
            let e = exponent as nat;
            lemma_pow10_adds(lead, e);
            lemma_pow10_monotone(0, e);
            lemma_pow10_adds(sig, e);
            lemma_pow10_monotone(sig + e, 400);
            let v = x.digits * pow10(e);
            assert(0 < v <= pow10(sig) * pow10(e)) by (nonlinear_arith)
                requires
                    v == x.digits * pow10(e),
                    0 < x.digits < pow10(sig),
                    pow10(e) > 0,
            ;
            assert(v <= 1 * pow2(2000));
            assert(1 <= v * pow2(2000)) by (nonlinear_arith)
                requires
                    v >= 1,
                    pow2(2000) >= 1,
            ;
        }
    } else {
        let down: u128 = (-exponent) as u128;
        times_ten(&mut c, down);
        proof {
            let e = (-exponent) as nat;
            let d = pow10(e);
            assert(1 * pow10(e) == d);
            lemma_pow10_monotone(0, e);
            lemma_pow10_adds(400, e);
            lemma_pow10_monotone(sig, 400 + e);
            assert(x.digits <= d * pow2(2000)) by (nonlinear_arith)
                requires
                    x.digits <= pow10(400) * d,
                    pow10(400) <= pow2(2000),
                    d > 0,
            ;
            lemma_pow10_adds(400, lead);
            lemma_pow10_monotone(e, 400 + lead);
            assert(d <= x.digits * pow2(2000)) by (nonlinear_arith)
                requires
                    d <= pow10(400) * pow10(lead),
                    pow10(lead) <= x.digits,
                    pow10(400) <= pow2(2000),
            ;
        }
    }
    let ghost n = a.value() * one_in_units();
    let ghost d = c.value();
    let (q, s, inexact): (u128, i32, bool) = divide(a, c);
    Binary64::round_bracketed(negative, q, s, inexact, Ghost(n), Ghost(d))
}

// ── Parsing ──────────────────────────────────────────────────────────────────

/// Position of the first exponent mark from `from` on.
fn find_mark(all: &Vec<char>, from: usize) -> (r: usize)
    requires
        from <= all.len(),
    ensures
        from <= r <= all.len(),
        r - from == mark_position(all@.skip(from as int)),
{
    let mut i: usize = from;
    while i < all.len() && !(all[i] == 'e' || all[i] == 'E')
        invariant
            from <= i <= all.len(),
            mark_position(all@.skip(from as int)) == i - from + mark_position(all@.skip(i as int)),
        decreases all.len() - i,
    {
        proof {
            assert(all@.skip(i as int).drop_first() == all@.skip(i + 1));
        }
        i = i + 1;
    }
    i
}

/// Position of the first point from `from` on, before `to`.
fn find_point(all: &Vec<char>, from: usize, to: usize) -> (r: usize)
    requires
        from <= to <= all.len(),
    ensures
        from <= r <= to,
        r - from == point_position(all@.subrange(from as int, to as int)),
{
    let mut i: usize = from;
    while i < to && all[i] != '.'
        invariant
            from <= i <= to <= all.len(),
            point_position(all@.subrange(from as int, to as int)) == i - from + point_position(
                all@.subrange(i as int, to as int),
            ),
        decreases to - i,
    {
        proof {
            assert(all@.subrange(i as int, to as int).drop_first() == all@.subrange(i + 1, to as int));
        }
        i = i + 1;
    }
    i
}

/// Digits that were read, how many of them count, and how many stand behind the point.
struct Mantissa {
    digits: Natural,
    count: usize,
    places: usize,
}

/// Reads the digits between two positions, with at most one point among them.
fn read_mantissa(all: &Vec<char>, start: usize, mark: usize) -> (r: Option<Mantissa>)
    requires
        start <= mark <= all.len(),
    ensures
        match r {
            Some(m) => mantissa_digits(all@.subrange(start as int, mark as int)) matches Some((text, places))
                && all_digits(text) && m.digits.value() == decimal_value(text) && m.count == significant(text)
                && m.places == places,
            None => mantissa_digits(all@.subrange(start as int, mark as int)) is None,
        },
{
    let ghost head = all@.subrange(start as int, mark as int);
    let point: usize = find_point(all, start, mark);
    let ghost whole = head.take(point - start);
    assert(all@.subrange(start as int, point as int) == whole);
    let next: usize = if point < mark {
        point + 1
    } else {
        mark
    };
    let ghost part = if point < mark { head.skip(point - start + 1) } else { Seq::<char>::empty() };
    assert(all@.subrange(next as int, mark as int) == part);
    let mut digits: Natural = Natural::zero();
    let before: Option<usize> = read_digits(all, start, point, &mut digits, 0, Ghost(Seq::<char>::empty()));
    let lead: usize = match before {
        Some(c) => c,
        None => {
            return None;
        },
    };
    assert(Seq::<char>::empty() + whole == whole);
    let behind: Option<usize> = read_digits(all, next, mark, &mut digits, lead, Ghost(whole));
    let count: usize = match behind {
        Some(c) => c,
        None => {
            return None;
        },
    };
    if point == start && next == mark {
        return None;
    }
    Some(Mantissa { digits, count, places: mark - next })
}

/// Reads the exponent behind the mark, where there is one.
fn read_power(all: &Vec<char>, mark: usize) -> (r: Option<i128>)
    requires
        mark <= all.len(),
    ensures
        ({
            let e = if mark < all@.len() {
                exponent_value(all@.skip(mark + 1))
            } else {
                Some(0)
            };
            match r {
                Some(v) => e is Some && -20 * FAR < v < 20 * FAR && (-FAR < v < FAR ==> v == e->0) && (v >= FAR
                    ==> v <= e->0) && (v <= -FAR ==> v >= e->0),
                None => e is None,
            }
        }),
{
    if mark == all.len() {
        return Some(0);
    }
    let after: usize = mark + 1;
    let ghost tail = all@.skip(after as int);
    let minus: bool = after < all.len() && all[after] == '-';
    let at: usize = if after < all.len() && (all[after] == '+' || all[after] == '-') {
        after + 1
    } else {
        after
    };
    assert(all@.skip(at as int) == unsigned_part(tail));
    match read_exponent(all, at) {
        Some(v) => Some(
            if minus {
                -v
            } else {
                v
            },
        ),
        None => None,
    }
}

/// Rounds digits with an exponent that is exact unless it is far from zero.
fn conclude(negative: bool, m: Mantissa, power: i128, Ghost(text): Ghost<Seq<char>>, Ghost(e): Ghost<int>) -> (r:
    Binary64)
    requires
        all_digits(text),
        m.digits.value() == decimal_value(text),
        m.count == significant(text),
        -20 * FAR < power < 20 * FAR,
        -FAR < power < FAR ==> power == e,
        power >= FAR ==> power <= e,
        power <= -FAR ==> power >= e,
    ensures
        r@ == (Decimal { negative, digits: decimal_value(text), exponent: e - m.places }).nearest(),
{
    let ghost x = Decimal { negative, digits: decimal_value(text), exponent: e - m.places };
    proof {
        lemma_significant(text);
    }
    if m.count == 0 {
        proof {
            lemma_zero_digits(x);
        }
        return Binary64::signed_zero(negative);
    }
    let exponent: i128 = power - m.places as i128;
    let lead: i128 = exponent + (m.count as i128 - 1);
    if lead >= 400 {
        proof {
            lemma_far_above(x, m.count as nat);
        }
        return Binary64::signed_infinity(negative);
    }
    if lead < -400 {
        proof {
            lemma_far_below(x, m.count as nat);
        }
        return Binary64::signed_zero(negative);
    }
    let ghost sig = m.count as nat;
    round_near(negative, m.digits, exponent, Ghost(sig))
}

/// The binary64 number nearest to the decimal number that `s` writes.
pub fn parse_decimal(s: &str) -> (r: Option<Binary64>)
    ensures
        match r {
            Some(v) => decimal_of(s@) matches Some(x) && v@ == x.nearest(),
            None => decimal_of(s@) is None,
        },
{
    let all: Vec<char> = characters(s);
    let negative: bool = all.len() > 0 && all[0] == '-';
    let start: usize = if all.len() > 0 && (all[0] == '+' || all[0] == '-') {
        1
    } else {
        0
    };
    let ghost body = unsigned_part(s@);
    assert(all@.skip(start as int) == body);
    let mark: usize = find_mark(&all, start);
    let ghost head = body.take(mark - start);
    assert(all@.subrange(start as int, mark as int) == head);
    assert(mark < all@.len() ==> all@.skip(mark + 1) == body.skip(mark - start + 1));
    let mantissa: Mantissa = match read_mantissa(&all, start, mark) {
        Some(m) => m,
        None => {
            return None;
        },
    };
    let power: i128 = match read_power(&all, mark) {
        Some(v) => v,
        None => {
            return None;
        },
    };
    let ghost (text, places) = mantissa_digits(head).unwrap();
    let ghost e = if mark < all@.len() { exponent_value(all@.skip(mark + 1))->0 } else { 0 };
    Some(conclude(negative, mantissa, power, Ghost(text), Ghost(e)))
}

/// No digits but zeros make a zero.
proof fn lemma_zero_digits(x: Decimal)
    requires
        x.digits == 0,
    ensures
        x.nearest() == (Real64::Finite { negative: x.negative, mantissa: 0, scale: 0 }),
{
    if x.exponent >= 0 {
        let v = x.digits * pow10(x.exponent as nat);
        assert(v * one_in_units() == 0) by (nonlinear_arith)
            requires
                v == x.digits * pow10(x.exponent as nat),
                x.digits == 0,
        ;
        lemma_too_small(x.negative, 0, 1);
    } else {
        lemma_pow10_monotone(0, (-x.exponent) as nat);
        assert(x.digits * one_in_units() == 0) by (nonlinear_arith)
            requires
                x.digits == 0,
        ;
        lemma_too_small(x.negative, 0, pow10((-x.exponent) as nat));
    }
}

// ── Laws ─────────────────────────────────────────────────────────────────────

proof fn lemma_digits_have_no_marks(s: Seq<char>)
    requires
        all_digits(s),
    ensures
        mark_position(s) == s.len(),
        point_position(s) == s.len(),
    decreases s.len(),
{
    if s.len() > 0 {
        assert(is_digit(s[0]));
        let t = s.drop_first();
        assert forall|i: int| 0 <= i < t.len() implies is_digit(#[trigger] t[i]) by {
            assert(is_digit(s[i + 1]));
        }
        lemma_digits_have_no_marks(t);
    }
}

/// Digits alone write the whole number nearest to which the result is.
pub proof fn digits_write_a_whole_number(s: Seq<char>)
    requires
        s.len() > 0,
        all_digits(s),
    ensures
        decimal_of(s) matches Some(x) && x.nearest() == Real64::of(decimal_value(s)),
{
    assert(is_digit(s[0]));
    lemma_digits_have_no_marks(s);
    let n = s.len() as int;
    assert(s.take(n) =~= s);
    assert(s + seq![] =~= s);
    let none: Seq<char> = seq![];
    assert(all_digits(none));
    assert(mantissa_digits(s) == Some((s, 0nat)));
    let x = decimal_of(s).unwrap();
    assert(x.exponent == 0 && x.digits == decimal_value(s) && !x.negative);
    assert(pow10(0) == 1);
    assert(x.digits * pow10(0) == x.digits);
}

proof fn lemma_positions(digits: Seq<char>, rest: Seq<char>)
    requires
        all_digits(digits),
    ensures
        rest.len() > 0 && rest[0] == '.' ==> point_position(digits + rest) == digits.len(),
        mark_position(digits + rest) == digits.len() + mark_position(rest),
    decreases digits.len(),
{
    if digits.len() == 0 {
        assert(digits + rest =~= rest);
    } else {
        let t = digits.drop_first();
        assert(is_digit(digits[0]));
        assert forall|i: int| 0 <= i < t.len() implies is_digit(#[trigger] t[i]) by {
            assert(is_digit(digits[i + 1]));
        }
        lemma_positions(t, rest);
        assert((digits + rest).drop_first() =~= t + rest);
        assert((digits + rest)[0] == digits[0]);
    }
}

/// Digits with a point among them write the digits over a power of ten, one for each digit behind the
/// point; a minus sign makes the number negative, and a plus sign changes nothing.
pub proof fn points_divide_by_tens(whole: Seq<char>, part: Seq<char>)
    requires
        all_digits(whole),
        all_digits(part),
        whole.len() + part.len() > 0,
    ensures
        ({
            let text = whole + seq!['.'] + part;
            let x = Decimal { negative: false, digits: decimal_value(whole + part), exponent: -part.len() };
            &&& decimal_of(text) == Some(x)
            &&& decimal_of(seq!['+'] + text) == Some(x)
            &&& decimal_of(seq!['-'] + text) == Some(Decimal { negative: true, ..x })
        }),
{
    let tail = seq!['.'] + part;
    let text = whole + seq!['.'] + part;
    let n = text.len() as int;
    assert(text =~= whole + tail);
    lemma_positions(whole, tail);
    lemma_digits_have_no_marks(part);
    lemma_positions(part, seq![]);
    assert(part + seq![] =~= part);
    assert(tail.drop_first() =~= part);
    assert(mark_position(tail) == 1 + mark_position(part));
    assert(mark_position(text) == n);
    assert(text.take(n) =~= text);
    assert(text.take(whole.len() as int) =~= whole);
    assert(text.skip(whole.len() as int + 1) =~= part);
    assert(mantissa_digits(text) == Some((whole + part, part.len())));
    assert((seq!['+'] + text).drop_first() =~= text);
    assert((seq!['-'] + text).drop_first() =~= text);
    if whole.len() > 0 {
        assert(is_digit(whole[0]));
        assert(text[0] == whole[0]);
    } else {
        assert(text[0] == '.');
    }
}

/// An exponent behind whole digits multiplies them by a power of ten, or divides them by one where
/// it is negative.
pub proof fn exponents_shift_by_tens(digits: Seq<char>, mark: char, places: Seq<char>)
    requires
        digits.len() > 0,
        all_digits(digits),
        mark == 'e' || mark == 'E',
        places.len() > 0,
        all_digits(places),
    ensures
        decimal_of(digits + seq![mark] + places) == Some(
            Decimal {
                negative: false,
                digits: decimal_value(digits),
                exponent: decimal_value(places) as int,
            },
        ),
        decimal_of(digits + seq![mark, '-'] + places) == Some(
            Decimal { negative: false, digits: decimal_value(digits), exponent: -decimal_value(places) },
        ),
{
    let n = digits.len() as int;
    let plain = digits + seq![mark] + places;
    let minus = digits + seq![mark, '-'] + places;
    assert(plain =~= digits + (seq![mark] + places));
    assert(minus =~= digits + (seq![mark, '-'] + places));
    lemma_positions(digits, seq![mark] + places);
    lemma_positions(digits, seq![mark, '-'] + places);
    assert(is_digit(digits[0]));
    assert(is_digit(places[0]));
    assert(plain[0] == digits[0] && minus[0] == digits[0]);
    assert(plain.take(n) =~= digits);
    assert(minus.take(n) =~= digits);
    assert(plain.skip(n + 1) =~= places);
    assert(minus.skip(n + 1) =~= seq!['-'] + places);
    assert((seq!['-'] + places).drop_first() =~= places);
    lemma_digits_have_no_marks(digits);
    let none: Seq<char> = seq![];
    assert(all_digits(none));
    assert(digits.take(n) =~= digits);
    assert(digits + none =~= digits);
    assert(mantissa_digits(digits) == Some((digits, 0nat)));
}

} // verus!
