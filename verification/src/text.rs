//! Text, character by character.

use vstd::prelude::*;

verus! {

// ── What the functions compute ───────────────────────────────────────────────

/// Unicode `White_Space`.
pub open spec fn is_white(c: char) -> bool {
    ||| '\u{9}' <= c <= '\u{d}'
    ||| c == '\u{20}'
    ||| c == '\u{85}'
    ||| c == '\u{a0}'
    ||| c == '\u{1680}'
    ||| '\u{2000}' <= c <= '\u{200a}'
    ||| c == '\u{2028}'
    ||| c == '\u{2029}'
    ||| c == '\u{202f}'
    ||| c == '\u{205f}'
    ||| c == '\u{3000}'
}

/// `s` without its leading white space.
pub open spec fn without_lead(s: Seq<char>) -> Seq<char>
    decreases s.len(),
{
    if s.len() > 0 && is_white(s[0]) {
        without_lead(s.drop_first())
    } else {
        s
    }
}

/// `s` without its trailing white space.
pub open spec fn without_trail(s: Seq<char>) -> Seq<char>
    decreases s.len(),
{
    if s.len() > 0 && is_white(s.last()) {
        without_trail(s.drop_last())
    } else {
        s
    }
}

/// `s` without white space at either end.
pub open spec fn trimmed(s: Seq<char>) -> Seq<char> {
    without_trail(without_lead(s))
}

/// `s` without the `c`s that it ends with.
pub open spec fn without_end(s: Seq<char>, c: char) -> Seq<char>
    decreases s.len(),
{
    if s.len() > 0 && s.last() == c {
        without_end(s.drop_last(), c)
    } else {
        s
    }
}

/// ASCII capital letters made small, every other character as it is.
pub open spec fn lower_char(c: char) -> char {
    if 'A' <= c <= 'Z' {
        ((c as u32) + 32) as char
    } else {
        c
    }
}

/// `s` with its ASCII letters made small.
pub open spec fn lowered(s: Seq<char>) -> Seq<char> {
    Seq::new(s.len(), |i: int| lower_char(s[i]))
}

/// Whether `s` begins with `p`.
pub open spec fn begins_with(s: Seq<char>, p: Seq<char>) -> bool {
    s.len() >= p.len() && s.take(p.len() as int) == p
}

/// Whether `s` ends with `p`.
pub open spec fn ends_with(s: Seq<char>, p: Seq<char>) -> bool {
    s.len() >= p.len() && s.skip(s.len() - p.len()) == p
}

/// Position of the last `c` in `s`, `-1` where there is none.
pub open spec fn last_position(s: Seq<char>, c: char) -> int
    decreases s.len(),
{
    if s.len() == 0 {
        -1
    } else if s.last() == c {
        s.len() - 1
    } else {
        last_position(s.drop_last(), c)
    }
}

/// Whether `c` is an ASCII digit.
pub open spec fn is_digit(c: char) -> bool {
    '0' <= c <= '9'
}

/// Whether `s` holds ASCII digits alone.
pub open spec fn all_digits(s: Seq<char>) -> bool {
    forall|i: int| 0 <= i < s.len() ==> is_digit(#[trigger] s[i])
}

/// The number that a digit stands for.
pub open spec fn digit_value(c: char) -> nat {
    (c as u32 - 48) as nat
}

/// The number that decimal digits stand for.
pub open spec fn decimal_value(s: Seq<char>) -> nat
    decreases s.len(),
{
    if s.len() == 0 {
        0
    } else {
        decimal_value(s.drop_last()) * 10 + digit_value(s.last())
    }
}

/// The whole number up to `max` that `s` writes, with or without a plus sign.
pub open spec fn unsigned_value(s: Seq<char>, max: nat) -> Option<nat> {
    let digits = if s.len() > 0 && s[0] == '+' {
        s.drop_first()
    } else {
        s
    };
    if digits.len() > 0 && all_digits(digits) && decimal_value(digits) <= max {
        Some(decimal_value(digits))
    } else {
        None
    }
}

/// The 64-bit whole number that `s` writes, with or without a sign.
pub open spec fn signed_value(s: Seq<char>) -> Option<int> {
    let negative = s.len() > 0 && s[0] == '-';
    let digits = if s.len() > 0 && (s[0] == '+' || s[0] == '-') {
        s.drop_first()
    } else {
        s
    };
    let value = if negative {
        -decimal_value(digits)
    } else {
        decimal_value(digits) as int
    };
    if digits.len() > 0 && all_digits(digits) && i64::MIN <= value <= i64::MAX {
        Some(value)
    } else {
        None
    }
}

/// The digit that stands for `d`.
pub open spec fn digit_char(d: nat) -> char {
    (48 + d) as char
}

/// The decimal digits of `v`.
pub open spec fn decimal_text(v: nat) -> Seq<char>
    decreases v,
{
    if v < 10 {
        seq![digit_char(v)]
    } else {
        decimal_text(v / 10).push(digit_char(v % 10))
    }
}

/// `v` in decimal, with a minus sign where it is negative.
pub open spec fn signed_text(v: int) -> Seq<char> {
    if v < 0 {
        seq!['-'] + decimal_text((-v) as nat)
    } else {
        decimal_text(v as nat)
    }
}

/// The characters of a text that may be missing.
pub open spec fn chars_of(s: Option<String>) -> Option<Seq<char>> {
    match s {
        Some(t) => Some(t@),
        None => None,
    }
}

/// A number in decimal is made of digits, and is read as that number.
pub proof fn decimal_text_is_read_back(v: nat)
    ensures
        decimal_text(v).len() > 0,
        all_digits(decimal_text(v)),
        decimal_value(decimal_text(v)) == v,
    decreases v,
{
    let d = digit_char(v % 10);
    assert(is_digit(d) && digit_value(d) == v % 10);
    if v >= 10 {
        decimal_text_is_read_back(v / 10);
        let t = decimal_text(v / 10);
        assert(decimal_text(v) =~= t.push(d));
        assert(t.push(d).drop_last() =~= t);
    } else {
        reveal_with_fuel(decimal_value, 2);
        assert(decimal_text(v) =~= seq![d]);
        assert(seq![d].drop_last() =~= seq![]);
    }
}

/// Text that neither begins nor ends with white space is trimmed already.
pub proof fn bare_text_is_trimmed(s: Seq<char>)
    requires
        s.len() > 0,
        !is_white(s[0]),
        !is_white(s.last()),
    ensures
        trimmed(s) == s,
{
}

/// Whether a text is white space alone.
pub open spec fn all_white(s: Seq<char>) -> bool {
    forall|i: int| 0 <= i < s.len() ==> is_white(#[trigger] s[i])
}

/// White space around a text is trimmed away.
pub proof fn surrounding_white_space_is_trimmed(lead: Seq<char>, s: Seq<char>, tail: Seq<char>)
    requires
        all_white(lead),
        all_white(tail),
    ensures
        trimmed(lead + s + tail) == trimmed(s),
{
    assert(lead + s + tail =~= lead + (s + tail));
    lemma_white_lead(lead, s + tail);
    lemma_lead_before(s, tail);
    if without_lead(s).len() > 0 {
        lemma_white_trail(without_lead(s), tail);
    } else {
        let none: Seq<char> = seq![];
        lemma_white_lead(tail, none);
        assert(tail + none =~= tail);
        assert(without_lead(s) =~= none);
    }
}

/// White space in front is taken off.
proof fn lemma_white_lead(lead: Seq<char>, s: Seq<char>)
    requires
        all_white(lead),
    ensures
        without_lead(lead + s) == without_lead(s),
    decreases lead.len(),
{
    if lead.len() == 0 {
        assert(lead + s =~= s);
    } else {
        let t = lead.drop_first();
        assert forall|i: int| 0 <= i < t.len() implies is_white(#[trigger] t[i]) by {
            assert(t[i] == lead[i + 1]);
        }
        assert((lead + s)[0] == lead[0]);
        assert((lead + s).drop_first() =~= t + s);
        lemma_white_lead(t, s);
    }
}

/// White space behind is taken off.
proof fn lemma_white_trail(s: Seq<char>, tail: Seq<char>)
    requires
        all_white(tail),
    ensures
        without_trail(s + tail) == without_trail(s),
    decreases tail.len(),
{
    if tail.len() == 0 {
        assert(s + tail =~= s);
    } else {
        let t = tail.drop_last();
        assert forall|i: int| 0 <= i < t.len() implies is_white(#[trigger] t[i]) by {
            assert(t[i] == tail[i]);
        }
        assert((s + tail).last() == tail[tail.len() - 1]);
        assert((s + tail).drop_last() =~= s + t);
        lemma_white_trail(s, t);
    }
}

/// What is behind a text stays where its leading white space is taken off.
proof fn lemma_lead_before(s: Seq<char>, tail: Seq<char>)
    ensures
        without_lead(s + tail) == if without_lead(s).len() > 0 {
            without_lead(s) + tail
        } else {
            without_lead(tail)
        },
    decreases s.len(),
{
    if s.len() == 0 {
        assert(s + tail =~= tail);
    } else {
        assert((s + tail)[0] == s[0]);
        if is_white(s[0]) {
            assert((s + tail).drop_first() =~= s.drop_first() + tail);
            lemma_lead_before(s.drop_first(), tail);
        }
    }
}

/// White space alone is trimmed to nothing.
pub proof fn white_space_is_trimmed_away(s: Seq<char>)
    requires
        all_white(s),
    ensures
        trimmed(s).len() == 0,
{
    let none: Seq<char> = seq![];
    assert(s + none + none =~= s);
    surrounding_white_space_is_trimmed(s, none, none);
}

/// All of a character that a text ends with is taken off, and nothing else.
pub proof fn ends_are_taken_off(s: Seq<char>, c: char, ends: Seq<char>)
    requires
        s.len() > 0 ==> s.last() != c,
        forall|i: int| 0 <= i < ends.len() ==> #[trigger] ends[i] == c,
    ensures
        without_end(s + ends, c) == s,
    decreases ends.len(),
{
    if ends.len() == 0 {
        assert(s + ends =~= s);
    } else {
        let rest = ends.drop_last();
        assert((s + ends).last() == ends[ends.len() - 1]);
        assert((s + ends).drop_last() =~= s + rest);
        assert forall|i: int| 0 <= i < rest.len() implies #[trigger] rest[i] == c by {
            assert(rest[i] == ends[i]);
        }
        ends_are_taken_off(s, c, rest);
    }
}

/// A number in decimal is read as that number, where it is not too large and with or without a plus
/// sign; a text with a character that is neither a digit nor a sign in front is no number.
pub proof fn numbers_are_read(v: nat, max: nat, s: Seq<char>, i: int)
    ensures
        unsigned_value(decimal_text(v), max) == if v <= max {
            Some(v)
        } else {
            None
        },
        unsigned_value(seq!['+'] + decimal_text(v), max) == if v <= max {
            Some(v)
        } else {
            None
        },
        v <= i64::MAX ==> signed_value(decimal_text(v)) == Some(v as int),
        v <= i64::MAX + 1 ==> signed_value(seq!['-'] + decimal_text(v)) == Some(-v),
        v > i64::MAX ==> signed_value(decimal_text(v)) is None,
        0 < i < s.len() && !('0' <= s[i] <= '9') ==> unsigned_value(s, max) is None && signed_value(s) is None,
        s.len() > 0 && !('0' <= s[0] <= '9') && s[0] != '+' ==> unsigned_value(s, max) is None,
        s.len() > 0 && !('0' <= s[0] <= '9') && s[0] != '+' && s[0] != '-' ==> signed_value(s) is None,
        s.len() == 0 ==> unsigned_value(s, max) is None && signed_value(s) is None,
{
    let digits = decimal_text(v);
    decimal_text_is_read_back(v);
    assert(is_digit(digits[0]));
    assert((seq!['+'] + digits).drop_first() =~= digits);
    assert((seq!['-'] + digits).drop_first() =~= digits);
    if 0 < i < s.len() && !is_digit(s[i]) {
        assert(s.drop_first()[i - 1] == s[i]);
        assert(!all_digits(s.drop_first()));
        assert(!all_digits(s));
    }
    if s.len() > 0 && !is_digit(s[0]) {
        assert(!all_digits(s));
    }
}

/// Making letters small changes capitals alone, and nothing a second time.
pub proof fn lowering_changes_capitals_alone(s: Seq<char>, i: int)
    requires
        0 <= i < s.len(),
    ensures
        lowered(s).len() == s.len(),
        !('A' <= s[i] <= 'Z') ==> lowered(s)[i] == s[i],
        'A' <= s[i] <= 'Z' ==> lowered(s)[i] as u32 == s[i] as u32 + 32,
        lowered(lowered(s)) == lowered(s),
{
    assert forall|j: int| 0 <= j < s.len() implies lower_char(#[trigger] lower_char(s[j])) == lower_char(s[j]) by {}
    assert(lowered(lowered(s)) =~= lowered(s));
}

/// A text begins with what is at its front and ends with what is at its back, and with nothing that
/// is longer or differs in a character.
pub proof fn fronts_and_backs_are_matched(a: Seq<char>, b: Seq<char>, p: Seq<char>, i: int)
    ensures
        begins_with(a + b, a),
        ends_with(a + b, b),
        p.len() > a.len() ==> !begins_with(a, p) && !ends_with(a, p),
        0 <= i < p.len() <= a.len() && a[i] != p[i] ==> !begins_with(a, p),
        0 <= i < p.len() <= a.len() && a[a.len() - p.len() + i] != p[i] ==> !ends_with(a, p),
{
    assert((a + b).take(a.len() as int) =~= a);
    assert((a + b).skip((a + b).len() - b.len()) =~= b);
    if 0 <= i < p.len() <= a.len() {
        assert(a.take(p.len() as int)[i] == a[i]);
        assert(a.skip(a.len() - p.len())[i] == a[a.len() - p.len() + i]);
    }
}

/// A number is written with a minus sign where it is negative, and reads back as itself.
pub proof fn written_numbers_read_back(v: int)
    requires
        i64::MIN <= v <= i64::MAX,
    ensures
        signed_value(signed_text(v)) == Some(v),
{
    numbers_are_read(
        (if v < 0 {
            -v
        } else {
            v
        }) as nat,
        0,
        seq![],
        0,
    );
}

/// What is trimmed neither begins nor ends with white space.
pub proof fn trimmed_text_is_bare(s: Seq<char>)
    ensures
        trimmed(s).len() > 0 ==> !is_white(trimmed(s)[0]) && !is_white(trimmed(s).last()),
{
    lemma_without_lead(s);
    lemma_without_trail(without_lead(s));
}

/// Trimming what has been trimmed changes nothing.
pub proof fn trimming_again_changes_nothing(s: Seq<char>)
    ensures
        trimmed(trimmed(s)) == trimmed(s),
{
    let t = without_lead(s);
    lemma_without_lead(s);
    lemma_without_trail(t);
    let u = without_trail(t);
    if u.len() > 0 {
        assert(u[0] == t[0]);
    }
}

/// What is left begins with something else than white space.
proof fn lemma_without_lead(s: Seq<char>)
    ensures
        without_lead(s).len() > 0 ==> !is_white(without_lead(s)[0]),
    decreases s.len(),
{
    if s.len() > 0 && is_white(s[0]) {
        lemma_without_lead(s.drop_first());
    }
}

/// What is left is a prefix, and ends with something else than white space.
proof fn lemma_without_trail(s: Seq<char>)
    ensures
        without_trail(s).len() <= s.len(),
        forall|i: int| 0 <= i < without_trail(s).len() ==> #[trigger] without_trail(s)[i] == s[i],
        without_trail(s).len() > 0 ==> !is_white(without_trail(s).last()),
    decreases s.len(),
{
    if s.len() > 0 && is_white(s.last()) {
        lemma_without_trail(s.drop_last());
        assert forall|i: int| 0 <= i < without_trail(s).len() implies #[trigger] without_trail(s)[i] == s[i] by {
            assert(without_trail(s)[i] == s.drop_last()[i]);
        }
    }
}

// ── Characters ───────────────────────────────────────────────────────────────

/// The characters of `s`.
pub fn characters(s: &str) -> (r: Vec<char>)
    ensures
        r@ == s@,
{
    let mut r: Vec<char> = Vec::new();
    for c in it: s.chars()
        invariant
            r@ == s@.take(it.index()),
            it.seq() == s@,
    {
        proof {
            assert(s@.take(it.index() + 1) == s@.take(it.index()).push(s@[it.index()]));
        }
        r.push(c);
    }
    proof {
        assert(s@.take(s@.len() as int) == s@);
    }
    r
}

/// Whether two texts are the same.
pub fn same(a: &str, b: &str) -> (r: bool)
    ensures
        r == (a@ == b@),
{
    let left: String = a.to_owned();
    let right: String = b.to_owned();
    left == right
}

/// Whether two character sequences are the same.
pub fn same_characters(a: &Vec<char>, b: &Vec<char>) -> (r: bool)
    ensures
        r == (a@ == b@),
{
    if a.len() != b.len() {
        return false;
    }
    let mut i: usize = 0;
    while i < a.len()
        invariant
            i <= a.len(),
            a.len() == b.len(),
            a@.take(i as int) == b@.take(i as int),
        decreases a.len() - i,
    {
        if a[i] != b[i] {
            assert(a@[i as int] != b@[i as int]);
            return false;
        }
        proof {
            assert(a@.take(i + 1) == a@.take(i as int).push(a@[i as int]));
            assert(b@.take(i + 1) == b@.take(i as int).push(b@[i as int]));
        }
        i = i + 1;
    }
    proof {
        assert(a@.take(a@.len() as int) == a@);
        assert(b@.take(b@.len() as int) == b@);
    }
    true
}

fn white(c: char) -> (r: bool)
    ensures
        r == is_white(c),
{
    ('\u{9}' <= c && c <= '\u{d}') || c == '\u{20}' || c == '\u{85}' || c == '\u{a0}' || c
        == '\u{1680}' || ('\u{2000}' <= c && c <= '\u{200a}') || c == '\u{2028}' || c == '\u{2029}' || c
        == '\u{202f}' || c == '\u{205f}' || c == '\u{3000}'
}

fn lower(c: char) -> (r: char)
    ensures
        r == lower_char(c),
{
    if 'A' <= c && c <= 'Z' {
        ((c as u8) + 32) as char
    } else {
        c
    }
}

/// `s` without white space at either end.
pub fn trim(s: &str) -> (r: &str)
    ensures
        r@ == trimmed(s@),
{
    let all: Vec<char> = characters(s);
    let n: usize = all.len();
    let mut from: usize = 0;
    proof {
        assert(s@.subrange(0, n as int) == s@);
    }
    while from < n && white(all[from])
        invariant
            from <= n,
            n == all.len(),
            all@ == s@,
            without_lead(s@) == without_lead(s@.subrange(from as int, n as int)),
        decreases n - from,
    {
        proof {
            assert(s@.subrange(from as int, n as int).drop_first() == s@.subrange(from + 1, n as int));
        }
        from = from + 1;
    }
    assert(without_lead(s@) == s@.subrange(from as int, n as int)) by {
        if from < n {
            assert(s@.subrange(from as int, n as int)[0] == s@[from as int]);
        }
    }
    let mut to: usize = n;
    while from < to && white(all[to - 1])
        invariant
            from <= to <= n,
            n == all.len(),
            all@ == s@,
            without_trail(without_lead(s@)) == without_trail(s@.subrange(from as int, to as int)),
        decreases to - from,
    {
        proof {
            assert(s@.subrange(from as int, to as int).drop_last() == s@.subrange(from as int, to - 1));
        }
        to = to - 1;
    }
    s.substring_char(from, to)
}

/// `s` without the `c`s that it ends with.
pub fn trim_end(s: &str, c: char) -> (r: &str)
    ensures
        r@ == without_end(s@, c),
{
    let all: Vec<char> = characters(s);
    let mut to: usize = all.len();
    proof {
        assert(s@.subrange(0, to as int) == s@);
    }
    while 0 < to && all[to - 1] == c
        invariant
            to <= all.len(),
            all@ == s@,
            without_end(s@, c) == without_end(s@.subrange(0, to as int), c),
        decreases to,
    {
        proof {
            assert(s@.subrange(0, to as int).drop_last() == s@.subrange(0, to - 1));
        }
        to = to - 1;
    }
    s.substring_char(0, to)
}

/// Whether `s`, with its ASCII letters made small, is `small`.
pub fn lowers_to(s: &str, small: &str) -> (r: bool)
    ensures
        r == (lowered(s@) == small@),
{
    let all: Vec<char> = characters(s);
    let goal: Vec<char> = characters(small);
    let mut made: Vec<char> = Vec::new();
    let mut i: usize = 0;
    while i < all.len()
        invariant
            i <= all.len(),
            all@ == s@,
            made@ == lowered(s@).take(i as int),
        decreases all.len() - i,
    {
        made.push(lower(all[i]));
        proof {
            assert(lowered(s@).take(i + 1) == lowered(s@).take(i as int).push(lowered(s@)[i as int]));
        }
        i = i + 1;
    }
    proof {
        assert(lowered(s@).take(s@.len() as int) == lowered(s@));
    }
    same_characters(&made, &goal)
}

/// Whether `s` begins with `p`.
pub fn starts_with(s: &str, p: &str) -> (r: bool)
    ensures
        r == begins_with(s@, p@),
{
    let n: usize = p.unicode_len();
    if s.unicode_len() < n {
        return false;
    }
    proof {
        assert(s@.subrange(0, n as int) == s@.take(n as int));
    }
    same(s.substring_char(0, n), p)
}

/// What comes before `p` where `s` ends with it.
pub fn strip_suffix<'a>(s: &'a str, p: &str) -> (r: Option<&'a str>)
    ensures
        match r {
            Some(t) => ends_with(s@, p@) && t@ == s@.take(s@.len() - p@.len()),
            None => !ends_with(s@, p@),
        },
{
    let n: usize = s.unicode_len();
    let k: usize = p.unicode_len();
    if n < k {
        return None;
    }
    proof {
        assert(s@.subrange(n - k, n as int) == s@.skip(n - k));
        assert(s@.subrange(0, n - k) == s@.take(n - k));
    }
    if same(s.substring_char(n - k, n), p) {
        Some(s.substring_char(0, n - k))
    } else {
        None
    }
}

/// Position of the last `c` in `s`.
pub fn find_last(s: &str, c: char) -> (r: Option<usize>)
    ensures
        match r {
            Some(i) => last_position(s@, c) == i && i < s@.len(),
            None => last_position(s@, c) == -1,
        },
{
    let all: Vec<char> = characters(s);
    let mut to: usize = all.len();
    proof {
        assert(s@.subrange(0, to as int) == s@);
    }
    while 0 < to
        invariant
            to <= all.len(),
            all@ == s@,
            last_position(s@, c) == last_position(s@.subrange(0, to as int), c),
        decreases to,
    {
        if all[to - 1] == c {
            return Some(to - 1);
        }
        proof {
            assert(s@.subrange(0, to as int).drop_last() == s@.subrange(0, to - 1));
        }
        to = to - 1;
    }
    None
}

/// What follows the last `c` in `s`, all of `s` where there is none.
pub open spec fn after_last(s: Seq<char>, c: char) -> Seq<char> {
    s.skip(last_position(s, c) + 1)
}

/// What follows a `c` and holds no further one is what follows the last `c`.
pub proof fn tail_follows_the_last(head: Seq<char>, c: char, tail: Seq<char>)
    requires
        forall|i: int| 0 <= i < tail.len() ==> #[trigger] tail[i] != c,
    ensures
        after_last(head.push(c) + tail, c) == tail,
        last_position(head.push(c) + tail, c) == head.len(),
    decreases tail.len(),
{
    let s = head.push(c) + tail;
    if tail.len() == 0 {
        assert(s.last() == c);
    } else {
        let t = tail.drop_last();
        assert(tail.last() == tail[tail.len() - 1]);
        assert(s.last() == tail.last());
        assert(s.drop_last() =~= head.push(c) + t);
        assert forall|i: int| 0 <= i < t.len() implies #[trigger] t[i] != c by {
            assert(t[i] == tail[i]);
        }
        tail_follows_the_last(head, c, t);
    }
    assert(s.skip(head.len() as int + 1) =~= tail);
}

/// A text without `c` has no position of it, and nothing is cut off.
pub proof fn no_tail_without_the_character(s: Seq<char>, c: char)
    requires
        forall|i: int| 0 <= i < s.len() ==> #[trigger] s[i] != c,
    ensures
        last_position(s, c) == -1,
        after_last(s, c) == s,
    decreases s.len(),
{
    if s.len() > 0 {
        let t = s.drop_last();
        assert(s.last() == s[s.len() - 1]);
        assert forall|i: int| 0 <= i < t.len() implies #[trigger] t[i] != c by {
            assert(t[i] == s[i]);
        }
        no_tail_without_the_character(t, c);
    }
    assert(s.skip(0) =~= s);
}

/// What follows the last `c` in `s`, all of `s` where there is none.
pub fn tail_after(s: &str, c: char) -> (r: &str)
    ensures
        r@ == after_last(s@, c),
{
    let n: usize = s.unicode_len();
    let from: usize = match find_last(s, c) {
        Some(i) => i + 1,
        None => 0,
    };
    proof {
        assert(s@.subrange(from as int, n as int) == s@.skip(from as int));
    }
    s.substring_char(from, n)
}

/// The texts in their order, as one.
pub fn joined(a: &str, b: &str) -> (r: String)
    ensures
        r@ == a@ + b@,
{
    let mut r: String = a.to_owned();
    r.append(b);
    r
}

// ── Numbers ──────────────────────────────────────────────────────────────────

fn digit(c: char) -> (r: bool)
    ensures
        r == is_digit(c),
{
    '0' <= c && c <= '9'
}

/// The number of a prefix is at most the number of the whole.
proof fn lemma_decimal_value_grows(s: Seq<char>, i: int)
    requires
        0 <= i <= s.len(),
    ensures
        decimal_value(s.take(i)) <= decimal_value(s),
    decreases s.len() - i,
{
    if i < s.len() {
        lemma_decimal_value_grows(s, i + 1);
        assert(s.take(i + 1).drop_last() == s.take(i));
    } else {
        assert(s.take(i) == s);
    }
}

/// The number up to `max` that the digits from position `from` on write.
fn parse_digits(all: &Vec<char>, from: usize, max: u64) -> (r: Option<u64>)
    requires
        from <= all.len(),
    ensures
        match r {
            Some(v) => all@.len() > from && all_digits(all@.skip(from as int)) && v == decimal_value(
                all@.skip(from as int),
            ) && v <= max,
            None => all@.len() == from || !all_digits(all@.skip(from as int)) || decimal_value(
                all@.skip(from as int),
            ) > max,
        },
{
    let ghost t = all@.skip(from as int);
    if all.len() == from {
        return None;
    }
    let mut v: u64 = 0;
    let mut i: usize = from;
    while i < all.len()
        invariant
            from <= i <= all.len(),
            t == all@.skip(from as int),
            v == decimal_value(t.take(i - from)),
            v <= max,
            forall|j: int| 0 <= j < i - from ==> is_digit(#[trigger] t[j]),
        decreases all.len() - i,
    {
        let c: char = all[i];
        assert(t[i - from] == c);
        if !digit(c) {
            return None;
        }
        proof {
            assert(t.take(i - from + 1).drop_last() == t.take(i - from));
            lemma_decimal_value_grows(t, i - from + 1);
        }
        let d: u64 = c as u64 - 48;
        if v > max / 10 || (v == max / 10 && d > max % 10) {
            return None;
        }
        v = v * 10 + d;
        i = i + 1;
    }
    proof {
        assert(t.take(t.len() as int) == t);
    }
    Some(v)
}

/// The whole number up to `max` that `s` writes, with or without a plus sign.
pub fn parse_unsigned(s: &str, max: u64) -> (r: Option<u64>)
    ensures
        match r {
            Some(v) => unsigned_value(s@, max as nat) == Some(v as nat),
            None => unsigned_value(s@, max as nat) is None,
        },
{
    let all: Vec<char> = characters(s);
    proof {
        assert(s@.skip(0) == s@);
        assert(s@.len() > 0 ==> s@.skip(1) == s@.drop_first());
    }
    if all.len() > 0 && all[0] == '+' {
        parse_digits(&all, 1, max)
    } else {
        parse_digits(&all, 0, max)
    }
}

/// The 64-bit whole number that `s` writes, with or without a sign.
pub fn parse_signed(s: &str) -> (r: Option<i64>)
    ensures
        match r {
            Some(v) => signed_value(s@) == Some(v as int),
            None => signed_value(s@) is None,
        },
{
    let all: Vec<char> = characters(s);
    proof {
        assert(s@.skip(0) == s@);
        assert(s@.len() > 0 ==> s@.skip(1) == s@.drop_first());
    }
    if all.len() > 0 && all[0] == '-' {
        match parse_digits(&all, 1, 0x8000_0000_0000_0000) {
            Some(v) => Some(
                if v == 0x8000_0000_0000_0000 {
                    i64::MIN
                } else {
                    -(v as i64)
                },
            ),
            None => None,
        }
    } else {
        let from: usize = if all.len() > 0 && all[0] == '+' {
            1
        } else {
            0
        };
        match parse_digits(&all, from, 0x7fff_ffff_ffff_ffff) {
            Some(v) => Some(v as i64),
            None => None,
        }
    }
}

fn digit_text(d: u64) -> (r: &'static str)
    requires
        d < 10,
    ensures
        r@ == seq![digit_char(d as nat)],
{
    proof {
        reveal_strlit("0");
        reveal_strlit("1");
        reveal_strlit("2");
        reveal_strlit("3");
        reveal_strlit("4");
        reveal_strlit("5");
        reveal_strlit("6");
        reveal_strlit("7");
        reveal_strlit("8");
        reveal_strlit("9");
    }
    let r: &'static str = if d == 0 {
        "0"
    } else if d == 1 {
        "1"
    } else if d == 2 {
        "2"
    } else if d == 3 {
        "3"
    } else if d == 4 {
        "4"
    } else if d == 5 {
        "5"
    } else if d == 6 {
        "6"
    } else if d == 7 {
        "7"
    } else if d == 8 {
        "8"
    } else {
        "9"
    };
    assert(r@ =~= seq![digit_char(d as nat)]);
    r
}

fn append_decimal(out: &mut String, v: u64)
    ensures
        final(out)@ == old(out)@ + decimal_text(v as nat),
    decreases v,
{
    if v >= 10 {
        append_decimal(out, v / 10);
    }
    out.append(digit_text(v % 10));
    assert(out@ =~= old(out)@ + decimal_text(v as nat));
}

/// `v` in decimal.
pub fn show_unsigned(v: u64) -> (r: String)
    ensures
        r@ == decimal_text(v as nat),
{
    let mut r: String = String::new();
    append_decimal(&mut r, v);
    assert(r@ =~= decimal_text(v as nat));
    r
}

/// `v` in decimal.
pub fn show_signed(v: i64) -> (r: String)
    ensures
        r@ == signed_text(v as int),
{
    let mut r: String = String::new();
    if v < 0 {
        proof {
            reveal_strlit("-");
        }
        r.append("-");
        assert(r@ =~= seq!['-']);
        let size: u64 = if v == i64::MIN {
            0x8000_0000_0000_0000
        } else {
            (-v) as u64
        };
        append_decimal(&mut r, size);
    } else {
        append_decimal(&mut r, v as u64);
    }
    assert(r@ =~= signed_text(v as int));
    r
}

} // verus!
