//! Pod metadata and Kubernetes quantities.
//!
//! The statistics tick lists the pods scheduled on this node once and derives, per pod: memory
//! limits per container (for `memoryPercentage`) and the owning workload (Deployment,
//! StatefulSet, DaemonSet, Job, …), reported as `workload` and `workloadKind`.

use vstd::arithmetic::power2::{lemma2_to64, lemma2_to64_rest, pow2};
use vstd::prelude::*;

use crate::binary64::{
    exact_numbers_come_back, exact_products, is_exact, scaled_numbers_are_exact, whole_numbers_are_exact, Binary64,
    Real64, FULL_END,
};
use crate::decimal::{decimal_of, digits_write_a_whole_number, parse_decimal};
use crate::json::{
    as_items, as_text, get, is_true, items_of, member, node_of, text_of, text_or_empty, Json, Tree,
};
use crate::keyed::{
    distinct, find, put, put_keeps_distinct, put_then_find, put_then_viewed, viewed, StringMap,
};
use crate::text::{
    all_digits, all_white, bare_text_is_trimmed, characters, chars_of, decimal_text, decimal_text_is_read_back, find_last,
    is_digit, is_white, joined, last_position, no_tail_without_the_character, same,
    surrounding_white_space_is_trimmed, tail_follows_the_last, trim, trimmed,
};

verus! {

/// Per-pod metadata derived from the pod list.
pub struct PodMeta {
    /// Owning workload name (e.g. Deployment name), when resolvable.
    pub workload: Option<String>,
    /// Owning workload kind (`Deployment`, `StatefulSet`, `DaemonSet`, `Job`, …).
    pub workload_kind: Option<String>,
    /// Memory limit in bytes per container name (absent = unlimited).
    pub mem_limits: StringMap<u64>,
}

/// What a [`PodMeta`] says.
pub struct Meta {
    pub workload: Option<Seq<char>>,
    pub workload_kind: Option<Seq<char>>,
    pub mem_limits: Seq<(Seq<char>, u64)>,
}

impl View for PodMeta {
    type V = Meta;

    open spec fn view(&self) -> Meta {
        Meta {
            workload: chars_of(self.workload),
            workload_kind: chars_of(self.workload_kind),
            mem_limits: self.mem_limits@,
        }
    }
}

impl Default for PodMeta {
    fn default() -> (r: PodMeta)
        ensures
            r@ == (Meta { workload: None, workload_kind: None, mem_limits: seq![] }),
    {
        PodMeta { workload: None, workload_kind: None, mem_limits: StringMap::new() }
    }
}

// ── Quantities ───────────────────────────────────────────────────────────────

/// Whether `c` can stand in the number of a quantity.
pub open spec fn is_number_char(c: char) -> bool {
    is_digit(c) || c == '.' || c == '-' || c == '+' || c == 'e' || c == 'E'
}

/// How many characters at the start of `s` can stand in a number.
pub open spec fn number_length(s: Seq<char>) -> nat
    decreases s.len(),
{
    if s.len() == 0 || !is_number_char(s[0]) {
        0
    } else {
        1 + number_length(s.drop_first())
    }
}

/// Where the suffix of a quantity begins. An `e` or `E` that ends the text, and the `E` of an `Ei`
/// that does, belong to the suffix (exa, exbi) and are no exponent marks.
pub open spec fn suffix_position(s: Seq<char>) -> nat {
    let n = number_length(s);
    let exa = n == s.len() && n > 0 && (s.last() == 'e' || s.last() == 'E');
    let exbi = n + 1 == s.len() && n > 0 && s[n - 1] == 'E' && s[n as int] == 'i';
    if exa || exbi {
        (n - 1) as nat
    } else {
        n
    }
}

/// The whole number that a suffix multiplies by.
pub open spec fn whole_multiplier(suffix: Seq<char>) -> Option<nat> {
    if suffix == ""@ {
        Some(1)
    } else if suffix == "k"@ {
        Some(1000)
    } else if suffix == "M"@ {
        Some(1_000_000)
    } else if suffix == "G"@ {
        Some(1_000_000_000)
    } else if suffix == "T"@ {
        Some(1_000_000_000_000)
    } else if suffix == "P"@ {
        Some(1_000_000_000_000_000)
    } else if suffix == "E"@ || suffix == "e"@ {
        Some(1_000_000_000_000_000_000)
    } else if suffix == "Ki"@ {
        Some(0x400)
    } else if suffix == "Mi"@ {
        Some(0x10_0000)
    } else if suffix == "Gi"@ {
        Some(0x4000_0000)
    } else if suffix == "Ti"@ {
        Some(0x100_0000_0000)
    } else if suffix == "Pi"@ {
        Some(0x4_0000_0000_0000)
    } else if suffix == "Ei"@ {
        Some(0x1000_0000_0000_0000)
    } else {
        None
    }
}

/// What a suffix multiplies by: a whole number, or a thousandth.
pub open spec fn multiplier_of(suffix: Seq<char>) -> Option<Real64> {
    match whole_multiplier(suffix) {
        Some(n) => Some(Real64::of(n)),
        None => if suffix == "m"@ {
            Some(Real64::of(1).over(Real64::of(1000)))
        } else {
            None
        },
    }
}

/// The number and the multiplier that a quantity writes, white space around it aside.
pub open spec fn quantity_parts(raw: Seq<char>) -> Option<(Real64, Real64)> {
    let s = trimmed(raw);
    let split = suffix_position(s) as int;
    match (decimal_of(s.take(split)), multiplier_of(s.skip(split))) {
        (Some(number), Some(multiplier)) => Some((number.nearest(), multiplier)),
        _ => None,
    }
}

/// The amount that a quantity writes: the rounded product of its number and its multiplier, where
/// that is finite and not below zero.
pub open spec fn amount_of(raw: Seq<char>) -> Option<Real64> {
    match quantity_parts(raw) {
        Some((number, multiplier)) => if number.times(multiplier).is_amount() {
            Some(number.times(multiplier))
        } else {
            None
        },
        None => None,
    }
}

/// The amount that a quantity writes, as a whole number of bytes.
pub open spec fn bytes_of(raw: Seq<char>) -> Option<u64> {
    match amount_of(raw) {
        Some(amount) => Some(amount.to_u64()),
        None => None,
    }
}

fn suffix_multiplier(suffix: &str) -> (r: Option<Binary64>)
    ensures
        match r {
            Some(m) => multiplier_of(suffix@) == Some(m@),
            None => multiplier_of(suffix@) is None,
        },
{
    let whole: u64 = if same(suffix, "") {
        1
    } else if same(suffix, "k") {
        1000
    } else if same(suffix, "M") {
        1_000_000
    } else if same(suffix, "G") {
        1_000_000_000
    } else if same(suffix, "T") {
        1_000_000_000_000
    } else if same(suffix, "P") {
        1_000_000_000_000_000
    } else if same(suffix, "E") || same(suffix, "e") {
        1_000_000_000_000_000_000
    } else if same(suffix, "Ki") {
        0x400
    } else if same(suffix, "Mi") {
        0x10_0000
    } else if same(suffix, "Gi") {
        0x4000_0000
    } else if same(suffix, "Ti") {
        0x100_0000_0000
    } else if same(suffix, "Pi") {
        0x4_0000_0000_0000
    } else if same(suffix, "Ei") {
        0x1000_0000_0000_0000
    } else if same(suffix, "m") {
        return Some(Binary64::from_u64(1).over(&Binary64::from_u64(1000)));
    } else {
        return None;
    };
    Some(Binary64::from_u64(whole))
}

fn number_char(c: char) -> (r: bool)
    ensures
        r == is_number_char(c),
{
    ('0' <= c && c <= '9') || c == '.' || c == '-' || c == '+' || c == 'e' || c == 'E'
}

fn find_suffix(s: &str) -> (r: usize)
    ensures
        r == suffix_position(s@),
        r <= s@.len(),
{
    let all: Vec<char> = characters(s);
    let mut n: usize = 0;
    proof {
        assert(s@.skip(0) =~= s@);
    }
    while n < all.len() && number_char(all[n])
        invariant
            n <= all.len(),
            all@ == s@,
            number_length(s@) == n + number_length(s@.skip(n as int)),
        decreases all.len() - n,
    {
        proof {
            assert(s@.skip(n as int)[0] == s@[n as int]);
            assert(s@.skip(n as int).drop_first() =~= s@.skip(n + 1));
        }
        n = n + 1;
    }
    proof {
        if n < all.len() {
            assert(s@.skip(n as int)[0] == s@[n as int]);
        }
    }
    let exa: bool = n == all.len() && n > 0 && (all[n - 1] == 'e' || all[n - 1] == 'E');
    let exbi: bool = n < all.len() && n == all.len() - 1 && n > 0 && all[n - 1] == 'E' && all[n] == 'i';
    if exa || exbi {
        n - 1
    } else {
        n
    }
}

/// Splits `"128Mi"` into its number and the multiplier of its suffix.
pub fn split_quantity(raw: &str) -> (r: Option<(Binary64, Binary64)>)
    ensures
        match r {
            Some((number, multiplier)) => quantity_parts(raw@) == Some((number@, multiplier@)),
            None => quantity_parts(raw@) is None,
        },
{
    let s: &str = trim(raw);
    let n: usize = s.unicode_len();
    let split: usize = find_suffix(s);
    let number: Option<Binary64> = parse_decimal(s.substring_char(0, split));
    let multiplier: Option<Binary64> = suffix_multiplier(s.substring_char(split, n));
    proof {
        assert(s@.subrange(0, split as int) =~= s@.take(split as int));
        assert(s@.subrange(split as int, n as int) =~= s@.skip(split as int));
    }
    match (number, multiplier) {
        (Some(v), Some(m)) => Some((v, m)),
        _ => None,
    }
}

/// Parses a Kubernetes resource quantity into bytes (for memory-like values).
///
/// Supports plain integers and decimals, binary suffixes (`Ki`, `Mi`, `Gi`, `Ti`, `Pi`, `Ei`),
/// decimal suffixes (`k`, `M`, `G`, `T`, `P`, `E`) and the milli suffix (`m`). Returns `None` for
/// malformed input.
pub fn parse_quantity_bytes(raw: &str) -> (r: Option<u64>)
    ensures
        r == bytes_of(raw@),
{
    match split_quantity(raw) {
        Some((value, multiplier)) => {
            let bytes: Binary64 = value.times(&multiplier);
            if bytes.is_amount() {
                Some(bytes.to_u64())
            } else {
                None
            }
        },
        None => None,
    }
}

/// Parses a CPU quantity into a number of cores (`"4"` is 4, `"3800m"` is 3.8).
pub fn parse_quantity_cores(raw: &str) -> (r: Option<Binary64>)
    ensures
        match r {
            Some(cores) => amount_of(raw@) == Some(cores@),
            None => amount_of(raw@) is None,
        },
{
    match split_quantity(raw) {
        Some((value, multiplier)) => {
            let cores: Binary64 = value.times(&multiplier);
            if cores.is_amount() {
                Some(cores)
            } else {
                None
            }
        },
        None => None,
    }
}

proof fn lemma_number_length(digits: Seq<char>, rest: Seq<char>)
    requires
        all_digits(digits),
    ensures
        number_length(digits + rest) == digits.len() + number_length(rest),
    decreases digits.len(),
{
    if digits.len() == 0 {
        assert(digits + rest =~= rest);
    } else {
        let t = digits.drop_first();
        assert(is_digit(digits[0]));
        assert forall|i: int| 0 <= i < t.len() implies is_digit(#[trigger] t[i]) by {
            assert(is_digit(digits[i + 1]));
        }
        lemma_number_length(t, rest);
        assert((digits + rest).drop_first() =~= t + rest);
    }
}

/// What is known of the suffixes with a whole multiplier.
proof fn lemma_suffixes(suffix: Seq<char>)
    requires
        whole_multiplier(suffix) is Some,
    ensures
        0 < whole_multiplier(suffix)->0 <= u64::MAX,
        suffix.len() > 0 ==> !is_white(suffix.last()),
        suffix.len() == 0 || !is_number_char(suffix[0]) || suffix == seq!['e'] || suffix == seq!['E'] || suffix
            == seq!['E', 'i'],
{
    reveal_strlit("");
    reveal_strlit("k");
    reveal_strlit("M");
    reveal_strlit("G");
    reveal_strlit("T");
    reveal_strlit("P");
    reveal_strlit("E");
    reveal_strlit("e");
    reveal_strlit("Ki");
    reveal_strlit("Mi");
    reveal_strlit("Gi");
    reveal_strlit("Ti");
    reveal_strlit("Pi");
    reveal_strlit("Ei");
    assert("e"@ =~= seq!['e'] && "E"@ =~= seq!['E'] && "Ei"@ =~= seq!['E', 'i']);
}

/// The power of two that a suffix multiplies by: none and the binary suffixes.
pub open spec fn binary_exponent(suffix: Seq<char>) -> Option<nat> {
    if suffix == ""@ {
        Some(0)
    } else if suffix == "Ki"@ {
        Some(10)
    } else if suffix == "Mi"@ {
        Some(20)
    } else if suffix == "Gi"@ {
        Some(30)
    } else if suffix == "Ti"@ {
        Some(40)
    } else if suffix == "Pi"@ {
        Some(50)
    } else if suffix == "Ei"@ {
        Some(60)
    } else {
        None
    }
}

/// A suffix with a power of two multiplies by it, and every whole multiplier is held exactly.
proof fn lemma_multipliers(suffix: Seq<char>)
    requires
        whole_multiplier(suffix) is Some,
    ensures
        is_exact(whole_multiplier(suffix)->0),
        binary_exponent(suffix) matches Some(e) ==> e <= 60 && whole_multiplier(suffix) == Some(pow2(e)),
{
    reveal_strlit("");
    reveal_strlit("k");
    reveal_strlit("M");
    reveal_strlit("G");
    reveal_strlit("T");
    reveal_strlit("P");
    reveal_strlit("E");
    reveal_strlit("e");
    reveal_strlit("Ki");
    reveal_strlit("Mi");
    reveal_strlit("Gi");
    reveal_strlit("Ti");
    reveal_strlit("Pi");
    reveal_strlit("Ei");
    assert(""@.len() == 0 && "k"@.len() == 1 && "M"@.len() == 1 && "G"@.len() == 1 && "T"@.len() == 1 && "P"@.len()
        == 1 && "E"@.len() == 1 && "e"@.len() == 1);
    assert("Ki"@[0] == 'K' && "Mi"@[0] == 'M' && "Gi"@[0] == 'G' && "Ti"@[0] == 'T' && "Pi"@[0] == 'P' && "Ei"@[0]
        == 'E');
    lemma2_to64();
    lemma2_to64_rest();
    let m = whole_multiplier(suffix)->0;
    match binary_exponent(suffix) {
        Some(e) => {
            assert(1 * pow2(e) == pow2(e));
            scaled_numbers_are_exact(1, e);
        },
        None => {
            if m <= FULL_END {
                whole_numbers_are_exact(m);
            } else {
                assert(3_814_697_265_625 * pow2(18) == 1_000_000_000_000_000_000);
                scaled_numbers_are_exact(3_814_697_265_625, 18);
            }
        },
    }
}

/// A whole number with a suffix is that many times the suffix: as long as 53 bits hold the
/// product, and without a suffix or with a binary one as long as 53 bits hold the number and 64
/// bits the product.
pub proof fn whole_quantities_are_exact(n: nat, suffix: Seq<char>)
    requires
        whole_multiplier(suffix) is Some,
        n <= FULL_END,
        n * whole_multiplier(suffix)->0 <= FULL_END || (binary_exponent(suffix) is Some && n * whole_multiplier(
            suffix,
        )->0 <= u64::MAX),
    ensures
        bytes_of(decimal_text(n) + suffix) == Some((n * whole_multiplier(suffix)->0) as u64),
        amount_of(decimal_text(n) + suffix) == Some(Real64::of(n * whole_multiplier(suffix)->0)),
{
    let digits = decimal_text(n);
    let raw = digits + suffix;
    let m = whole_multiplier(suffix)->0;
    decimal_text_is_read_back(n);
    lemma_suffixes(suffix);
    lemma_number_length(digits, suffix);
    assert(is_digit(digits[0]));
    assert(is_digit(digits.last()));
    assert(raw[0] == digits[0]);
    assert(raw.last() == if suffix.len() > 0 {
        suffix.last()
    } else {
        digits.last()
    });
    bare_text_is_trimmed(raw);
    reveal_with_fuel(number_length, 2);
    assert(suffix.len() > 0 ==> raw[digits.len() as int] == suffix[0]);
    assert(suffix.len() > 1 ==> raw[digits.len() as int + 1] == suffix[1]);
    assert(suffix == seq!['E', 'i'] ==> suffix.drop_first() =~= seq!['i']);
    assert(suffix.len() == 1 ==> suffix.drop_first() =~= seq![]);
    assert(suffix_position(raw) == digits.len());
    assert(raw.take(digits.len() as int) =~= digits);
    assert(raw.skip(digits.len() as int) =~= suffix);
    digits_write_a_whole_number(digits);
    whole_numbers_are_exact(n);
    lemma_multipliers(suffix);
    exact_products(n, m);
    if n * m <= FULL_END {
        whole_numbers_are_exact(n * m);
    } else {
        scaled_numbers_are_exact(n, binary_exponent(suffix)->0);
        exact_numbers_come_back(n * m);
    }
}

/// The suffixes without an `i` multiply by powers of a thousand, those with one by powers of 1024.
pub proof fn suffixes_are_powers()
    ensures
        whole_multiplier(""@) == Some(1nat),
        whole_multiplier("k"@) == Some(1000nat),
        whole_multiplier("M"@) == Some(1000nat * 1000),
        whole_multiplier("G"@) == Some(1000nat * 1000 * 1000),
        whole_multiplier("T"@) == Some(1000nat * 1000 * 1000 * 1000),
        whole_multiplier("P"@) == Some(1000nat * 1000 * 1000 * 1000 * 1000),
        whole_multiplier("E"@) == Some(1000nat * 1000 * 1000 * 1000 * 1000 * 1000),
        whole_multiplier("e"@) == whole_multiplier("E"@),
        whole_multiplier("Ki"@) == Some(1024nat),
        whole_multiplier("Mi"@) == Some(1024nat * 1024),
        whole_multiplier("Gi"@) == Some(1024nat * 1024 * 1024),
        whole_multiplier("Ti"@) == Some(1024nat * 1024 * 1024 * 1024),
        whole_multiplier("Pi"@) == Some(1024nat * 1024 * 1024 * 1024 * 1024),
        whole_multiplier("Ei"@) == Some(1024nat * 1024 * 1024 * 1024 * 1024 * 1024),
        multiplier_of("m"@) == Some(Real64::of(1).over(Real64::of(1000))),
{
    lemma_suffix_letters();
}

proof fn lemma_suffix_letters()
    ensures
        ""@ == Seq::<char>::empty(),
        "k"@ == seq!['k'],
        "M"@ == seq!['M'],
        "G"@ == seq!['G'],
        "T"@ == seq!['T'],
        "P"@ == seq!['P'],
        "E"@ == seq!['E'],
        "e"@ == seq!['e'],
        "m"@ == seq!['m'],
        "Ki"@ == seq!['K', 'i'],
        "Mi"@ == seq!['M', 'i'],
        "Gi"@ == seq!['G', 'i'],
        "Ti"@ == seq!['T', 'i'],
        "Pi"@ == seq!['P', 'i'],
        "Ei"@ == seq!['E', 'i'],
        ""@.len() == 0,
        "k"@.len() == 1 && "M"@.len() == 1 && "G"@.len() == 1 && "T"@.len() == 1 && "P"@.len() == 1 && "E"@.len() == 1
            && "e"@.len() == 1 && "m"@.len() == 1,
        "Ki"@.len() == 2 && "Mi"@.len() == 2 && "Gi"@.len() == 2 && "Ti"@.len() == 2 && "Pi"@.len() == 2
            && "Ei"@.len() == 2,
        "k"@[0] == 'k' && "M"@[0] == 'M' && "G"@[0] == 'G' && "T"@[0] == 'T' && "P"@[0] == 'P' && "E"@[0] == 'E'
            && "e"@[0] == 'e' && "m"@[0] == 'm',
        "Ki"@[0] == 'K' && "Mi"@[0] == 'M' && "Gi"@[0] == 'G' && "Ti"@[0] == 'T' && "Pi"@[0] == 'P' && "Ei"@[0]
            == 'E',
{
    reveal_strlit("");
    reveal_strlit("k");
    reveal_strlit("M");
    reveal_strlit("G");
    reveal_strlit("T");
    reveal_strlit("P");
    reveal_strlit("E");
    reveal_strlit("e");
    reveal_strlit("m");
    reveal_strlit("Ki");
    reveal_strlit("Mi");
    reveal_strlit("Gi");
    reveal_strlit("Ti");
    reveal_strlit("Pi");
    reveal_strlit("Ei");
}

/// Whether `suffix` is one that a quantity can have.
pub open spec fn is_suffix(suffix: Seq<char>) -> bool {
    ||| suffix.len() == 0
    ||| suffix == "k"@ || suffix == "M"@ || suffix == "G"@ || suffix == "T"@ || suffix == "P"@ || suffix == "E"@
    ||| suffix == "Ki"@ || suffix == "Mi"@ || suffix == "Gi"@ || suffix == "Ti"@ || suffix == "Pi"@ || suffix == "Ei"@
    ||| suffix == "e"@ || suffix == "m"@
}

/// A quantity with any other suffix is malformed; what is written is never negative.
pub proof fn malformed_quantities_are_refused(n: nat, suffix: Seq<char>, raw: Seq<char>)
    ensures
        !is_suffix(suffix) && !is_number_char(suffix[0]) && !is_white(suffix.last()) ==> amount_of(
            decimal_text(n) + suffix,
        ) is None && bytes_of(decimal_text(n) + suffix) is None,
        amount_of(raw) matches Some(x) ==> x.is_amount(),
        (bytes_of(raw) is Some) == (amount_of(raw) is Some),
        trimmed(raw).len() == 0 ==> amount_of(raw) is None,
{
    if !is_suffix(suffix) && !is_number_char(suffix[0]) && !is_white(suffix.last()) {
        let digits = decimal_text(n);
        let text = digits + suffix;
        decimal_text_is_read_back(n);
        lemma_number_length(digits, suffix);
        assert(is_digit(digits[0]));
        assert(text[0] == digits[0]);
        assert(text.last() == suffix.last());
        bare_text_is_trimmed(text);
        assert(number_length(suffix) == 0);
        assert(is_digit(digits[digits.len() - 1]));
        assert(text[digits.len() - 1] == digits[digits.len() - 1]);
        assert(suffix_position(text) == digits.len());
        assert(text.skip(digits.len() as int) =~= suffix);
        reveal_strlit("");
        assert(multiplier_of(suffix) is None);
    }
    if trimmed(raw).len() == 0 {
        let s = trimmed(raw);
        let none: Seq<char> = seq![];
        assert(s.take(0) =~= none);
        assert(none.take(0) =~= none);
        assert(decimal_of(none) is None);
    }
}

/// Whether every character of `s` can stand in a number: digits, points, signs and exponent marks.
pub open spec fn is_number_text(s: Seq<char>) -> bool {
    forall|i: int|
        0 <= i < s.len() ==> ('0' <= #[trigger] s[i] <= '9' || s[i] == '.' || s[i] == '-' || s[i] == '+' || s[i] == 'e'
            || s[i] == 'E')
}

proof fn lemma_number_text(number: Seq<char>, rest: Seq<char>)
    requires
        is_number_text(number),
    ensures
        number_length(number + rest) == number.len() + number_length(rest),
    decreases number.len(),
{
    if number.len() == 0 {
        assert(number + rest =~= rest);
    } else {
        let t = number.drop_first();
        assert(is_number_char(number[0]));
        assert forall|i: int| 0 <= i < t.len() implies '0' <= #[trigger] t[i] <= '9' || t[i] == '.' || t[i] == '-'
            || t[i] == '+' || t[i] == 'e' || t[i] == 'E' by {
            assert(t[i] == number[i + 1]);
        }
        lemma_number_text(t, rest);
        assert((number + rest).drop_first() =~= t + rest);
        assert((number + rest)[0] == number[0]);
    }
}

/// A quantity is a number and a suffix: the number nearest to what its text writes times what its
/// suffix multiplies by. Where the text before the suffix is no number it is malformed.
pub proof fn quantities_are_numbers_and_suffixes(number: Seq<char>, suffix: Seq<char>)
    requires
        number.len() > 0,
        is_number_text(number),
        suffix.len() == 0 ==> number.last() != 'e' && number.last() != 'E',
        suffix.len() > 0 ==> is_suffix(suffix) && suffix != "e"@ && suffix != "E"@ && suffix != "Ei"@,
    ensures
        decimal_of(number) is None ==> quantity_parts(number + suffix) is None && amount_of(number + suffix) is None,
        decimal_of(number) matches Some(x) ==> {
            &&& multiplier_of(suffix) is Some
            &&& quantity_parts(number + suffix) == Some((x.nearest(), multiplier_of(suffix)->0))
            &&& ({
                let product = x.nearest().times(multiplier_of(suffix)->0);
                &&& product.is_amount() ==> amount_of(number + suffix) == Some(product) && bytes_of(number + suffix)
                    == Some(product.to_u64())
                &&& !product.is_amount() ==> amount_of(number + suffix) is None && bytes_of(number + suffix) is None
            })
        },
{
    let text = number + suffix;
    let n = number.len() as int;
    lemma_suffix_letters();
    lemma_number_text(number, suffix);
    assert(is_number_char(number[0]));
    assert(text[0] == number[0]);
    assert(number.last() == number[n - 1]);
    assert(is_number_char(number[n - 1]));
    assert(text[n - 1] == number[n - 1]);
    if suffix.len() > 0 {
        assert(!is_number_char(suffix[0]));
        assert(text.last() == suffix.last());
        assert(!is_white(suffix.last()));
        assert(text[n] == suffix[0]);
        assert(suffix[0] != 'i');
    } else {
        assert(text.last() == number.last());
    }
    bare_text_is_trimmed(text);
    assert(number_length(suffix) == 0);
    assert(suffix_position(text) == n);
    assert(text.take(n) =~= number);
    assert(text.skip(n) =~= suffix);
    if suffix.len() == 0 {
        assert(suffix =~= ""@);
    }
}

/// White space around a quantity changes nothing.
pub proof fn surrounding_white_space_changes_nothing(lead: Seq<char>, raw: Seq<char>, tail: Seq<char>)
    requires
        all_white(lead),
        all_white(tail),
    ensures
        quantity_parts(lead + raw + tail) == quantity_parts(raw),
        amount_of(lead + raw + tail) == amount_of(raw),
        bytes_of(lead + raw + tail) == bytes_of(raw),
{
    surrounding_white_space_is_trimmed(lead, raw, tail);
}

// ── Workloads ────────────────────────────────────────────────────────────────

/// The kind and the name of the workload that an owner stands for. A ReplicaSet is named after its
/// Deployment, with `-` and a hash behind; any other owner stands for itself.
pub open spec fn workload_of(kind: Seq<char>, name: Seq<char>) -> (Seq<char>, Seq<char>) {
    if kind == "ReplicaSet"@ && last_position(name, '-') > 0 {
        ("Deployment"@, name.take(last_position(name, '-')))
    } else {
        (kind, name)
    }
}

/// Maps a pod `ownerReference` to the workload that is reported.
///
/// Pods owned by a ReplicaSet are reported as their Deployment: the ReplicaSet name is
/// `<deployment>-<pod-template-hash>`, so the last `-`-separated segment is stripped. This avoids
/// one extra API call per pod; the heuristic only misfires for a bare ReplicaSet whose own name
/// ends in a dash-suffix, which is rare enough to accept.
pub fn workload_from_owner(kind: &str, name: &str) -> (r: (String, String))
    ensures
        (r.0@, r.1@) == workload_of(kind@, name@),
{
    if same(kind, "ReplicaSet") {
        if let Some(i) = find_last(name, '-') {
            if i > 0 {
                proof {
                    assert(name@.subrange(0, i as int) =~= name@.take(i as int));
                }
                return ("Deployment".to_owned(), name.substring_char(0, i).to_owned());
            }
        }
    }
    (kind.to_owned(), name.to_owned())
}

/// The first owner that is marked `controller: true`.
pub open spec fn first_controller(owners: Seq<Tree>) -> Option<Tree>
    decreases owners.len(),
{
    if owners.len() == 0 {
        None
    } else if member(Some(owners[0]), "controller"@) == Some(Tree::Bool(true)) {
        Some(owners[0])
    } else {
        first_controller(owners.drop_first())
    }
}

/// The owner that controls a pod: the first one marked so, else the first one.
pub open spec fn owner_of(pod: Tree) -> Option<Tree> {
    match items_of(member(member(Some(pod), "metadata"@), "ownerReferences"@)) {
        Some(owners) => if first_controller(owners) is Some {
            first_controller(owners)
        } else if owners.len() > 0 {
            Some(owners[0])
        } else {
            None
        },
        None => None,
    }
}

/// The controlling `ownerReference` of a pod (the first owner when none is marked
/// `controller: true`).
pub fn controller_owner(pod: &Json) -> (r: Option<&Json>)
    ensures
        node_of(r) == owner_of(pod@),
{
    match as_items(get(get(Some(pod), "metadata"), "ownerReferences")) {
        Some(owners) => {
            let ghost all = items_of(member(member(Some(pod@), "metadata"@), "ownerReferences"@))->0;
            let mut i: usize = 0;
            proof {
                assert(all.skip(0) =~= all);
            }
            while i < owners.len()
                invariant
                    i <= owners.len(),
                    all.len() == owners@.len(),
                    items_of(member(member(Some(pod@), "metadata"@), "ownerReferences"@)) == Some(all),
                    forall|j: int| 0 <= j < all.len() ==> #[trigger] all[j] == owners@[j]@,
                    first_controller(all) == first_controller(all.skip(i as int)),
                decreases owners.len() - i,
            {
                proof {
                    assert(all.skip(i as int)[0] == all[i as int]);
                    assert(all.skip(i as int).drop_first() =~= all.skip(i + 1));
                }
                if is_true(get(Some(&owners[i]), "controller")) {
                    return Some(&owners[i]);
                }
                i = i + 1;
            }
            if owners.len() > 0 {
                Some(&owners[0])
            } else {
                None
            }
        },
        None => None,
    }
}

// ── Pod lists ────────────────────────────────────────────────────────────────

/// The memory limits of a pod's containers, by name: of each container that has a name and a
/// limit that can be read.
pub open spec fn limits_of(containers: Seq<Tree>) -> Seq<(Seq<char>, u64)>
    decreases containers.len(),
{
    if containers.len() == 0 {
        seq![]
    } else {
        let before = limits_of(containers.drop_last());
        let name = text_of(member(Some(containers.last()), "name"@));
        let limits = member(member(Some(containers.last()), "resources"@), "limits"@);
        match member(limits, "memory"@) {
            Some(Tree::Text(raw)) => match bytes_of(raw) {
                Some(bytes) => if name.len() > 0 {
                    put(before, name, bytes)
                } else {
                    before
                },
                None => before,
            },
            _ => before,
        }
    }
}

/// The metadata of one pod.
pub open spec fn meta_of(pod: Tree) -> Meta {
    let owner = owner_of(pod);
    let kind = text_of(member(owner, "kind"@));
    let name = text_of(member(owner, "name"@));
    let owned = kind.len() > 0 && name.len() > 0;
    Meta {
        workload: if owned {
            Some(workload_of(kind, name).1)
        } else {
            None
        },
        workload_kind: if owned {
            Some(workload_of(kind, name).0)
        } else {
            None
        },
        mem_limits: match items_of(member(member(Some(pod), "spec"@), "containers"@)) {
            Some(containers) => limits_of(containers),
            None => seq![],
        },
    }
}

/// What a pod is filed under: `"{namespace}/{pod}"`.
pub open spec fn pod_key(namespace: Seq<char>, pod: Seq<char>) -> Seq<char> {
    namespace + "/"@ + pod
}

/// The metadata of the pods in a list, those without a namespace or a name left out.
pub open spec fn metas_of(pods: Seq<Tree>) -> Seq<(Seq<char>, Meta)>
    decreases pods.len(),
{
    if pods.len() == 0 {
        seq![]
    } else {
        let before = metas_of(pods.drop_last());
        let metadata = member(Some(pods.last()), "metadata"@);
        let namespace = text_of(member(metadata, "namespace"@));
        let name = text_of(member(metadata, "name"@));
        if namespace.len() == 0 || name.len() == 0 {
            before
        } else {
            put(before, pod_key(namespace, name), meta_of(pods.last()))
        }
    }
}

/// The metadata of the pods in a `PodList`.
pub open spec fn listed_metas(pod_list: Tree) -> Seq<(Seq<char>, Meta)> {
    match items_of(member(Some(pod_list), "items"@)) {
        Some(pods) => metas_of(pods),
        None => seq![],
    }
}

// ── Laws ─────────────────────────────────────────────────────────────────────

/// The pods in a `PodList`, none where there is no such list.
pub open spec fn pods_in(pod_list: Tree) -> Seq<Tree> {
    match member(Some(pod_list), "items"@) {
        Some(Tree::Array(pods)) => pods,
        _ => seq![],
    }
}

/// Whether a pod has the given namespace and name, and neither is empty.
pub open spec fn is_called(pod: Tree, namespace: Seq<char>, name: Seq<char>) -> bool {
    &&& namespace.len() > 0
    &&& name.len() > 0
    &&& member(member(Some(pod), "metadata"@), "namespace"@) == Some(Tree::Text(namespace))
    &&& member(member(Some(pod), "metadata"@), "name"@) == Some(Tree::Text(name))
}

/// Whether a pod is filed under `key`.
pub open spec fn is_filed_under(pod: Tree, key: Seq<char>) -> bool {
    exists|namespace: Seq<char>, name: Seq<char>| #[trigger]
        is_called(pod, namespace, name) && key == namespace + "/"@ + name
}

proof fn lemma_is_called(pod: Tree)
    ensures
        ({
            let namespace = text_of(member(member(Some(pod), "metadata"@), "namespace"@));
            let name = text_of(member(member(Some(pod), "metadata"@), "name"@));
            &&& forall|key: Seq<char>| #[trigger]
                is_filed_under(pod, key) ==> namespace.len() > 0 && name.len() > 0 && key == pod_key(namespace, name)
            &&& namespace.len() > 0 && name.len() > 0 ==> is_called(pod, namespace, name) && is_filed_under(
                pod,
                pod_key(namespace, name),
            )
        }),
{
    let namespace = text_of(member(member(Some(pod), "metadata"@), "namespace"@));
    let name = text_of(member(member(Some(pod), "metadata"@), "name"@));
    if namespace.len() > 0 && name.len() > 0 {
        assert(is_called(pod, namespace, name));
        assert(pod_key(namespace, name) == namespace + "/"@ + name);
    }
    assert forall|key: Seq<char>| #[trigger] is_filed_under(pod, key) implies namespace.len() > 0 && name.len() > 0
        && key == pod_key(namespace, name) by {
        let (a, b) = choose|a: Seq<char>, b: Seq<char>| #[trigger] is_called(pod, a, b) && key == a + "/"@ + b;
        assert(a == namespace && b == name);
    }
}

proof fn lemma_metas_found(pods: Seq<Tree>, i: int, key: Seq<char>)
    requires
        0 <= i < pods.len(),
        is_filed_under(pods[i], key),
        forall|j: int| i < j < pods.len() ==> !is_filed_under(#[trigger] pods[j], key),
    ensures
        find(metas_of(pods), key) == Some(meta_of(pods[i])),
    decreases pods.len(),
{
    let rest = pods.drop_last();
    let last = pods.last();
    let metadata = member(Some(last), "metadata"@);
    let namespace = text_of(member(metadata, "namespace"@));
    let name = text_of(member(metadata, "name"@));
    lemma_is_called(last);
    put_then_find(metas_of(rest), pod_key(namespace, name), meta_of(last), key);
    if i < rest.len() {
        assert(!is_filed_under(pods[pods.len() - 1], key));
        assert(rest[i] == pods[i]);
        assert forall|j: int| i < j < rest.len() implies !is_filed_under(#[trigger] rest[j], key) by {
            assert(rest[j] == pods[j]);
        }
        lemma_metas_found(rest, i, key);
    }
}

proof fn lemma_metas_missing(pods: Seq<Tree>, key: Seq<char>)
    requires
        forall|j: int| 0 <= j < pods.len() ==> !is_filed_under(#[trigger] pods[j], key),
    ensures
        find(metas_of(pods), key) is None,
    decreases pods.len(),
{
    if pods.len() > 0 {
        let rest = pods.drop_last();
        let last = pods.last();
        let metadata = member(Some(last), "metadata"@);
        let namespace = text_of(member(metadata, "namespace"@));
        let name = text_of(member(metadata, "name"@));
        assert(!is_filed_under(pods[pods.len() - 1], key));
        lemma_is_called(last);
        assert forall|j: int| 0 <= j < rest.len() implies !is_filed_under(#[trigger] rest[j], key) by {
            assert(rest[j] == pods[j]);
        }
        lemma_metas_missing(rest, key);
        put_then_find(metas_of(rest), pod_key(namespace, name), meta_of(last), key);
    }
}

/// Every pod of a list that has a namespace and a name is filed under `"{namespace}/{pod}"`; where
/// two are filed under one key, the last counts.
pub proof fn every_pod_is_filed(pod_list: Tree, i: int, namespace: Seq<char>, name: Seq<char>)
    requires
        0 <= i < pods_in(pod_list).len(),
        is_called(pods_in(pod_list)[i], namespace, name),
        forall|j: int|
            i < j < pods_in(pod_list).len() ==> !is_filed_under(
                #[trigger] pods_in(pod_list)[j],
                namespace + "/"@ + name,
            ),
    ensures
        find(listed_metas(pod_list), namespace + "/"@ + name) == Some(meta_of(pods_in(pod_list)[i])),
{
    assert(is_filed_under(pods_in(pod_list)[i], namespace + "/"@ + name));
    lemma_metas_found(pods_in(pod_list), i, namespace + "/"@ + name);
}

/// Nothing is filed but the pods of a list, each under its own key and no key twice.
pub proof fn nothing_else_is_filed(pod_list: Tree, key: Seq<char>)
    ensures
        (forall|j: int| 0 <= j < pods_in(pod_list).len() ==> !is_filed_under(#[trigger] pods_in(pod_list)[j], key))
            ==> find(listed_metas(pod_list), key) is None,
        distinct(listed_metas(pod_list)),
{
    let pods = pods_in(pod_list);
    if forall|j: int| 0 <= j < pods.len() ==> !is_filed_under(#[trigger] pods[j], key) {
        lemma_metas_missing(pods, key);
    }
    lemma_metas_distinct(pods);
}

proof fn lemma_metas_distinct(pods: Seq<Tree>)
    ensures
        distinct(metas_of(pods)),
    decreases pods.len(),
{
    if pods.len() > 0 {
        let metadata = member(Some(pods.last()), "metadata"@);
        lemma_metas_distinct(pods.drop_last());
        put_keeps_distinct(
            metas_of(pods.drop_last()),
            pod_key(text_of(member(metadata, "namespace"@)), text_of(member(metadata, "name"@))),
            meta_of(pods.last()),
        );
    }
}

/// The containers in a pod's specification, none where there is no such list.
pub open spec fn containers_in(pod: Tree) -> Seq<Tree> {
    match member(member(Some(pod), "spec"@), "containers"@) {
        Some(Tree::Array(containers)) => containers,
        _ => seq![],
    }
}

/// Whether a container has the given name and a memory limit of so many bytes.
pub open spec fn is_limited(container: Tree, name: Seq<char>, bytes: u64) -> bool {
    &&& name.len() > 0
    &&& member(Some(container), "name"@) == Some(Tree::Text(name))
    &&& member(member(member(Some(container), "resources"@), "limits"@), "memory"@) matches Some(Tree::Text(raw))
    &&& bytes_of(raw) == Some(bytes)
}

/// Whether a container has the given name and a memory limit.
pub open spec fn has_limit(container: Tree, name: Seq<char>) -> bool {
    exists|bytes: u64| #[trigger] is_limited(container, name, bytes)
}

proof fn lemma_limits_step(containers: Seq<Tree>, name: Seq<char>)
    requires
        containers.len() > 0,
    ensures
        forall|bytes: u64| #[trigger]
            is_limited(containers.last(), name, bytes) ==> find(limits_of(containers), name) == Some(bytes),
        !has_limit(containers.last(), name) ==> find(limits_of(containers), name) == find(
            limits_of(containers.drop_last()),
            name,
        ),
        distinct(limits_of(containers.drop_last())) ==> distinct(limits_of(containers)),
{
    let last = containers.last();
    let before = limits_of(containers.drop_last());
    let own = text_of(member(Some(last), "name"@));
    if let Some(Tree::Text(raw)) = member(member(member(Some(last), "resources"@), "limits"@), "memory"@) {
        if let Some(bytes) = bytes_of(raw) {
            if own.len() > 0 {
                assert(is_limited(last, own, bytes));
                put_then_find(before, own, bytes, name);
                if distinct(before) {
                    put_keeps_distinct(before, own, bytes);
                }
            }
        }
    }
}

proof fn lemma_limit_found(containers: Seq<Tree>, i: int, name: Seq<char>, bytes: u64)
    requires
        0 <= i < containers.len(),
        is_limited(containers[i], name, bytes),
        forall|j: int| i < j < containers.len() ==> !has_limit(#[trigger] containers[j], name),
    ensures
        find(limits_of(containers), name) == Some(bytes),
    decreases containers.len(),
{
    let rest = containers.drop_last();
    lemma_limits_step(containers, name);
    assert(containers.last() == containers[containers.len() - 1]);
    if i < rest.len() {
        assert(rest[i] == containers[i]);
        assert forall|j: int| i < j < rest.len() implies !has_limit(#[trigger] rest[j], name) by {
            assert(rest[j] == containers[j]);
        }
        lemma_limit_found(rest, i, name, bytes);
    }
}

proof fn lemma_limit_missing(containers: Seq<Tree>, name: Seq<char>)
    requires
        forall|j: int| 0 <= j < containers.len() ==> !has_limit(#[trigger] containers[j], name),
    ensures
        find(limits_of(containers), name) is None,
    decreases containers.len(),
{
    if containers.len() > 0 {
        let rest = containers.drop_last();
        lemma_limits_step(containers, name);
        assert(containers.last() == containers[containers.len() - 1]);
        assert forall|j: int| 0 <= j < rest.len() implies !has_limit(#[trigger] rest[j], name) by {
            assert(rest[j] == containers[j]);
        }
        lemma_limit_missing(rest, name);
    }
}

/// Every container of a pod that has a name and a readable memory limit has that limit in the pod's
/// metadata; where a name occurs twice, the last limit counts.
pub proof fn every_limit_is_kept(pod: Tree, i: int, name: Seq<char>, bytes: u64)
    requires
        0 <= i < containers_in(pod).len(),
        is_limited(containers_in(pod)[i], name, bytes),
        forall|j: int| i < j < containers_in(pod).len() ==> !has_limit(#[trigger] containers_in(pod)[j], name),
    ensures
        find(meta_of(pod).mem_limits, name) == Some(bytes),
{
    lemma_limit_found(containers_in(pod), i, name, bytes);
}

/// A container without a readable memory limit has none in the pod's metadata.
pub proof fn no_limit_is_made_up(pod: Tree, name: Seq<char>)
    requires
        forall|j: int| 0 <= j < containers_in(pod).len() ==> !has_limit(#[trigger] containers_in(pod)[j], name),
    ensures
        find(meta_of(pod).mem_limits, name) is None,
{
    lemma_limit_missing(containers_in(pod), name);
}

/// The owners of a pod, none where there is no such list.
pub open spec fn owners_in(pod: Tree) -> Seq<Tree> {
    match member(member(Some(pod), "metadata"@), "ownerReferences"@) {
        Some(Tree::Array(owners)) => owners,
        _ => seq![],
    }
}

/// Whether an owner is marked `controller: true`.
pub open spec fn controls(owner: Tree) -> bool {
    member(Some(owner), "controller"@) == Some(Tree::Bool(true))
}

proof fn lemma_first_controller(owners: Seq<Tree>, i: int)
    requires
        0 <= i <= owners.len(),
        forall|j: int| 0 <= j < i ==> !controls(#[trigger] owners[j]),
        i < owners.len() ==> controls(owners[i]),
    ensures
        first_controller(owners) == if i < owners.len() {
            Some(owners[i])
        } else {
            None
        },
    decreases owners.len(),
{
    if owners.len() > 0 && i > 0 {
        let rest = owners.drop_first();
        assert(!controls(owners[0]));
        assert forall|j: int| 0 <= j < i - 1 implies !controls(#[trigger] rest[j]) by {
            assert(rest[j] == owners[j + 1]);
        }
        lemma_first_controller(rest, i - 1);
    }
}

/// The owner of a pod is the first that controls it, the first of all where none does, and nobody
/// where it has none.
pub proof fn owner_controls_the_pod(pod: Tree, i: int)
    requires
        0 <= i <= owners_in(pod).len(),
        forall|j: int| 0 <= j < i ==> !controls(#[trigger] owners_in(pod)[j]),
        i < owners_in(pod).len() ==> controls(owners_in(pod)[i]),
    ensures
        i < owners_in(pod).len() ==> owner_of(pod) == Some(owners_in(pod)[i]),
        i == owners_in(pod).len() && i > 0 ==> owner_of(pod) == Some(owners_in(pod)[0]),
        owners_in(pod).len() == 0 ==> owner_of(pod) is None,
{
    lemma_first_controller(owners_in(pod), i);
}

/// Whether there is no `-` in `s`.
pub open spec fn is_undashed(s: Seq<char>) -> bool {
    forall|k: int| 0 <= k < s.len() ==> #[trigger] s[k] != '-'
}

/// A pod of a ReplicaSet `<deployment>-<hash>` is one of the Deployment.
pub proof fn replica_sets_are_deployments(deployment: Seq<char>, hash: Seq<char>)
    requires
        deployment.len() > 0,
        is_undashed(hash),
    ensures
        workload_of("ReplicaSet"@, deployment + "-"@ + hash) == ("Deployment"@, deployment),
{
    reveal_strlit("-");
    let name = deployment + "-"@ + hash;
    assert(name =~= deployment.push('-') + hash);
    tail_follows_the_last(deployment, '-', hash);
    assert(name.take(deployment.len() as int) =~= deployment);
}

/// Any other owner stands for itself: one of another kind, and a ReplicaSet without a dash or with
/// one in front alone.
pub proof fn other_owners_stand_for_themselves(kind: Seq<char>, name: Seq<char>)
    ensures
        kind != "ReplicaSet"@ ==> workload_of(kind, name) == (kind, name),
        is_undashed(name) ==> workload_of(kind, name) == (kind, name),
        name.len() > 0 && is_undashed(name.drop_first()) ==> workload_of(kind, name) == (kind, name),
{
    if is_undashed(name) {
        no_tail_without_the_character(name, '-');
    } else if name.len() > 0 && is_undashed(name.drop_first()) {
        let tail = name.drop_first();
        let none: Seq<char> = seq![];
        if name[0] != '-' {
            assert forall|k: int| 0 <= k < name.len() implies #[trigger] name[k] != '-' by {
                if k > 0 {
                    assert(tail[k - 1] == name[k]);
                }
            }
        }
        assert(none.push('-') + tail =~= name);
        tail_follows_the_last(none, '-', tail);
    }
}

/// The workload of a pod is what its owner stands for, where the owner has a kind and a name; else
/// there is none.
pub proof fn workload_is_what_the_owner_stands_for(pod: Tree, kind: Seq<char>, name: Seq<char>)
    ensures
        kind.len() > 0 && name.len() > 0 && member(owner_of(pod), "kind"@) == Some(Tree::Text(kind)) && member(
            owner_of(pod),
            "name"@,
        ) == Some(Tree::Text(name)) ==> meta_of(pod).workload == Some(workload_of(kind, name).1) && meta_of(
            pod,
        ).workload_kind == Some(workload_of(kind, name).0),
        text_of(member(owner_of(pod), "kind"@)).len() == 0 || text_of(member(owner_of(pod), "name"@)).len() == 0
            ==> meta_of(pod).workload is None && meta_of(pod).workload_kind is None,
{
}

// ── Reading pod lists ────────────────────────────────────────────────────────

fn memory_limits(containers: &Vec<Json>, Ghost(all): Ghost<Seq<Tree>>) -> (r: StringMap<u64>)
    requires
        all.len() == containers@.len(),
        forall|j: int| 0 <= j < all.len() ==> #[trigger] all[j] == containers@[j]@,
    ensures
        r@ == limits_of(all),
{
    let mut r: StringMap<u64> = StringMap::new();
    let mut i: usize = 0;
    assert(r@ =~= limits_of(all.take(0)));
    while i < containers.len()
        invariant
            i <= containers.len(),
            all.len() == containers@.len(),
            forall|j: int| 0 <= j < all.len() ==> #[trigger] all[j] == containers@[j]@,
            r@ == limits_of(all.take(i as int)),
        decreases containers.len() - i,
    {
        proof {
            assert(all.take(i + 1).drop_last() =~= all.take(i as int));
            assert(all.take(i + 1).last() == all[i as int]);
        }
        let c: Option<&Json> = Some(&containers[i]);
        let name: &str = text_or_empty(get(c, "name"));
        if let Some(raw) = as_text(get(get(get(c, "resources"), "limits"), "memory")) {
            if let Some(bytes) = parse_quantity_bytes(raw) {
                if name.unicode_len() > 0 {
                    r.insert(name.to_owned(), bytes);
                }
            }
        }
        i = i + 1;
    }
    assert(all.take(all.len() as int) =~= all);
    r
}

fn pod_meta(pod: &Json) -> (r: PodMeta)
    ensures
        r@ == meta_of(pod@),
{
    let owner: Option<&Json> = controller_owner(pod);
    let kind: &str = text_or_empty(get(owner, "kind"));
    let name: &str = text_or_empty(get(owner, "name"));
    let mut meta: PodMeta = PodMeta::default();
    if kind.unicode_len() > 0 && name.unicode_len() > 0 {
        let (workload_kind, workload): (String, String) = workload_from_owner(kind, name);
        meta.workload = Some(workload);
        meta.workload_kind = Some(workload_kind);
    }
    if let Some(containers) = as_items(get(get(Some(pod), "spec"), "containers")) {
        let ghost all = items_of(member(member(Some(pod@), "spec"@), "containers"@))->0;
        meta.mem_limits = memory_limits(containers, Ghost(all));
    }
    meta
}

/// The metadata of the pods in a `PodList`, keyed by `"{namespace}/{pod}"`.
pub fn parse_pod_metas(pod_list: &Json) -> (r: StringMap<PodMeta>)
    ensures
        viewed(r@) == listed_metas(pod_list@),
{
    let mut out: StringMap<PodMeta> = StringMap::new();
    assert(viewed(out@) =~= Seq::<(Seq<char>, Meta)>::empty());
    match as_items(get(Some(pod_list), "items")) {
        Some(pods) => {
            let ghost all = items_of(member(Some(pod_list@), "items"@))->0;
            let mut i: usize = 0;
            assert(viewed(out@) =~= metas_of(all.take(0)));
            while i < pods.len()
                invariant
                    i <= pods.len(),
                    all.len() == pods@.len(),
                    forall|j: int| 0 <= j < all.len() ==> #[trigger] all[j] == pods@[j]@,
                    viewed(out@) == metas_of(all.take(i as int)),
                decreases pods.len() - i,
            {
                proof {
                    assert(all.take(i + 1).drop_last() =~= all.take(i as int));
                    assert(all.take(i + 1).last() == all[i as int]);
                }
                let pod: &Json = &pods[i];
                let metadata: Option<&Json> = get(Some(pod), "metadata");
                let namespace: &str = text_or_empty(get(metadata, "namespace"));
                let name: &str = text_or_empty(get(metadata, "name"));
                if namespace.unicode_len() > 0 && name.unicode_len() > 0 {
                    let mut key: String = joined(namespace, "/");
                    key.append(name);
                    let meta: PodMeta = pod_meta(pod);
                    proof {
                        put_then_viewed(out@, key@, meta);
                    }
                    out.insert(key, meta);
                }
                i = i + 1;
            }
            assert(all.take(all.len() as int) =~= all);
            out
        },
        None => out,
    }
}

} // verus!
