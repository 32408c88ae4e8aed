//! A small map with text keys that remembers the order in which its keys came.

use vstd::prelude::*;

use crate::text::{begins_with, same, starts_with};

verus! {

// ── The model: entries in order ──────────────────────────────────────────────

/// The value of the first entry under `key`.
pub open spec fn find<V>(s: Seq<(Seq<char>, V)>, key: Seq<char>) -> Option<V>
    decreases s.len(),
{
    if s.len() == 0 {
        None
    } else if s[0].0 == key {
        Some(s[0].1)
    } else {
        find(s.drop_first(), key)
    }
}

/// The entries after `value` has been put under `key`: in the place of the old value where there
/// was one, else at the end.
pub open spec fn put<V>(s: Seq<(Seq<char>, V)>, key: Seq<char>, value: V) -> Seq<(Seq<char>, V)>
    decreases s.len(),
{
    if s.len() == 0 {
        seq![(key, value)]
    } else if s[0].0 == key {
        seq![(key, value)] + s.drop_first()
    } else {
        seq![s[0]] + put(s.drop_first(), key, value)
    }
}

/// Whether no key occurs twice.
pub open spec fn distinct<V>(s: Seq<(Seq<char>, V)>) -> bool {
    forall|i: int, j: int| 0 <= i < j < s.len() ==> (#[trigger] s[i]).0 != (#[trigger] s[j]).0
}

/// The entries whose keys do not begin with `prefix`.
pub open spec fn kept<V>(s: Seq<(Seq<char>, V)>, prefix: Seq<char>) -> Seq<(Seq<char>, V)>
    decreases s.len(),
{
    if s.len() == 0 {
        s
    } else if begins_with(s.last().0, prefix) {
        kept(s.drop_last(), prefix)
    } else {
        kept(s.drop_last(), prefix).push(s.last())
    }
}

/// The keys that begin with `prefix`.
pub open spec fn matching<V>(s: Seq<(Seq<char>, V)>, prefix: Seq<char>) -> Seq<Seq<char>>
    decreases s.len(),
{
    if s.len() == 0 {
        seq![]
    } else if begins_with(s.last().0, prefix) {
        matching(s.drop_last(), prefix).push(s.last().0)
    } else {
        matching(s.drop_last(), prefix)
    }
}

/// The entries with the views of their values.
pub open spec fn viewed<V: View>(s: Seq<(Seq<char>, V)>) -> Seq<(Seq<char>, V::V)> {
    Seq::new(s.len(), |i: int| (s[i].0, s[i].1@))
}

// ── Laws ─────────────────────────────────────────────────────────────────────

/// What was put under a key is found there; every other key keeps what it had.
pub proof fn put_then_find<V>(s: Seq<(Seq<char>, V)>, key: Seq<char>, value: V, other: Seq<char>)
    ensures
        find(put(s, key, value), other) == if other == key {
            Some(value)
        } else {
            find(s, other)
        },
    decreases s.len(),
{
    let t = put(s, key, value);
    if s.len() == 0 {
        assert(t.drop_first() == s);
    } else if s[0].0 == key {
        assert(t.drop_first() == s.drop_first());
    } else {
        put_then_find(s.drop_first(), key, value, other);
        assert(t.drop_first() == put(s.drop_first(), key, value));
    }
}

/// Putting what is there already changes nothing.
pub proof fn put_again<V>(s: Seq<(Seq<char>, V)>, key: Seq<char>, value: V)
    requires
        find(s, key) == Some(value),
    ensures
        put(s, key, value) == s,
    decreases s.len(),
{
    if s.len() > 0 {
        if s[0].0 != key {
            put_again(s.drop_first(), key, value);
        }
        assert(put(s, key, value) =~= s);
    }
}

/// Where the first entries do not begin with a prefix and all others do, taking it out leaves the
/// first entries, and the keys of the others match.
pub proof fn kept_of_parts<V>(a: Seq<(Seq<char>, V)>, b: Seq<(Seq<char>, V)>, prefix: Seq<char>)
    requires
        forall|i: int| 0 <= i < a.len() ==> !begins_with((#[trigger] a[i]).0, prefix),
        forall|i: int| 0 <= i < b.len() ==> begins_with((#[trigger] b[i]).0, prefix),
    ensures
        kept(a + b, prefix) == a,
        matching(a + b, prefix).len() == b.len(),
        forall|i: int| 0 <= i < b.len() ==> #[trigger] matching(a + b, prefix)[i] == b[i].0,
    decreases a.len() + b.len(),
{
    let s = a + b;
    if b.len() > 0 {
        let c = b.drop_last();
        assert forall|i: int| 0 <= i < c.len() implies begins_with((#[trigger] c[i]).0, prefix) by {
            assert(c[i] == b[i]);
        }
        kept_of_parts(a, c, prefix);
        assert(s.drop_last() =~= a + c);
        assert(s.last() == b.last());
        assert(begins_with(b[b.len() - 1].0, prefix));
        assert forall|i: int| 0 <= i < b.len() implies #[trigger] matching(s, prefix)[i] == b[i].0 by {
            if i < c.len() {
                assert(matching(s, prefix)[i] == matching(a + c, prefix)[i]);
            }
        }
    } else {
        assert(s =~= a);
        if a.len() > 0 {
            let c = a.drop_last();
            assert forall|i: int| 0 <= i < c.len() implies !begins_with((#[trigger] c[i]).0, prefix) by {
                assert(c[i] == a[i]);
            }
            kept_of_parts(c, b, prefix);
            assert(c + b =~= c);
            assert(!begins_with(a[a.len() - 1].0, prefix));
            assert(kept(s, prefix) =~= a);
        }
    }
}

/// Once a prefix has been taken out, nothing matches it.
pub proof fn kept_then_matching<V>(s: Seq<(Seq<char>, V)>, prefix: Seq<char>)
    ensures
        matching(kept(s, prefix), prefix) == Seq::<Seq<char>>::empty(),
        kept(kept(s, prefix), prefix) == kept(s, prefix),
    decreases s.len(),
{
    if s.len() > 0 {
        kept_then_matching(s.drop_last(), prefix);
        let t = kept(s.drop_last(), prefix);
        assert(t.push(s.last()).drop_last() =~= t);
    }
}

/// The keys that match a prefix are keys, and begin with it.
pub proof fn matching_is_membership<V>(s: Seq<(Seq<char>, V)>, prefix: Seq<char>)
    ensures
        forall|i: int| 0 <= i < matching(s, prefix).len() ==> begins_with(#[trigger] matching(s, prefix)[i], prefix),
        forall|i: int|
            0 <= i < matching(s, prefix).len() ==> find(s, #[trigger] matching(s, prefix)[i]) is Some,
        forall|k: Seq<char>| #[trigger]
            find(s, k) is Some && begins_with(k, prefix) ==> matching(s, prefix).contains(k),
    decreases s.len(),
{
    if s.len() > 0 {
        let t = s.drop_last();
        matching_is_membership(t, prefix);
        assert(t.push(s.last()) =~= s);
        assert forall|i: int| 0 <= i < matching(s, prefix).len() implies find(
            s,
            #[trigger] matching(s, prefix)[i],
        ) is Some by {
            lemma_find_push(t, s.last(), matching(s, prefix)[i]);
            if i < matching(t, prefix).len() {
                assert(matching(s, prefix)[i] == matching(t, prefix)[i]);
            }
        }
        assert forall|k: Seq<char>| #[trigger]
            find(s, k) is Some && begins_with(k, prefix) implies matching(s, prefix).contains(k) by {
            lemma_find_push(t, s.last(), k);
            if find(t, k) is Some {
                let j = choose|j: int| 0 <= j < matching(t, prefix).len() && matching(t, prefix)[j] == k;
                assert(matching(s, prefix)[j] == k);
            } else {
                assert(matching(s, prefix)[matching(t, prefix).len() as int] == k);
            }
        }
    }
}

/// Values can be put before or after their views are taken.
pub proof fn put_then_viewed<V: View>(s: Seq<(Seq<char>, V)>, key: Seq<char>, value: V)
    ensures
        viewed(put(s, key, value)) == put(viewed(s), key, value@),
    decreases s.len(),
{
    if s.len() > 0 {
        assert(viewed(s).drop_first() =~= viewed(s.drop_first()));
        put_then_viewed(s.drop_first(), key, value);
    }
    assert(viewed(put(s, key, value)) =~= put(viewed(s), key, value@));
}

/// Values can be found before or after their views are taken.
pub proof fn viewed_then_find<V: View>(s: Seq<(Seq<char>, V)>, key: Seq<char>)
    ensures
        find(viewed(s), key) == match find(s, key) {
            Some(v) => Some(v@),
            None => None,
        },
    decreases s.len(),
{
    if s.len() > 0 {
        assert(viewed(s).drop_first() =~= viewed(s.drop_first()));
        viewed_then_find(s.drop_first(), key);
    }
}

/// A key is found exactly where some entry has it.
pub proof fn find_is_membership<V>(s: Seq<(Seq<char>, V)>, key: Seq<char>)
    ensures
        find(s, key) is Some <==> exists|i: int| 0 <= i < s.len() && (#[trigger] s[i]).0 == key,
    decreases s.len(),
{
    if s.len() > 0 {
        let t = s.drop_first();
        find_is_membership(t, key);
        if s[0].0 != key {
            if find(s, key) is Some {
                let i = choose|i: int| 0 <= i < t.len() && (#[trigger] t[i]).0 == key;
                assert(s[i + 1].0 == key);
            }
            if exists|i: int| 0 <= i < s.len() && (#[trigger] s[i]).0 == key {
                let i = choose|i: int| 0 <= i < s.len() && (#[trigger] s[i]).0 == key;
                assert(t[i - 1].0 == key);
            }
        }
    }
}

/// The first entry under a key is the one that is found.
pub proof fn first_entry_is_found<V>(s: Seq<(Seq<char>, V)>, key: Seq<char>, i: int)
    requires
        0 <= i < s.len(),
        s[i].0 == key,
        forall|j: int| 0 <= j < i ==> (#[trigger] s[j]).0 != key,
    ensures
        find(s, key) == Some(s[i].1),
{
    lemma_find_skip(s, key, i);
    assert(s.skip(i)[0] == s[i]);
}

/// What is found in two parts is found in the first of them that has it.
pub proof fn find_in_parts<V>(a: Seq<(Seq<char>, V)>, b: Seq<(Seq<char>, V)>, key: Seq<char>)
    ensures
        find(a + b, key) == if find(a, key) is Some {
            find(a, key)
        } else {
            find(b, key)
        },
    decreases a.len(),
{
    if a.len() == 0 {
        assert(a + b =~= b);
    } else {
        assert((a + b)[0] == a[0]);
        assert((a + b).drop_first() =~= a.drop_first() + b);
        find_in_parts(a.drop_first(), b, key);
    }
}

/// Putting a value keeps keys distinct, and adds one entry at most.
pub proof fn put_keeps_distinct<V>(s: Seq<(Seq<char>, V)>, key: Seq<char>, value: V)
    requires
        distinct(s),
    ensures
        distinct(put(s, key, value)),
        put(s, key, value).len() == if find(s, key) is Some {
            s.len()
        } else {
            s.len() + 1
        },
    decreases s.len(),
{
    let t = put(s, key, value);
    if s.len() > 0 {
        let rest = s.drop_first();
        assert(distinct(rest)) by {
            assert forall|i: int, j: int| 0 <= i < j < rest.len() implies (#[trigger] rest[i]).0 != (
            #[trigger] rest[j]).0 by {
                assert(s[i + 1].0 != s[j + 1].0);
            }
        }
        put_keeps_distinct(rest, key, value);
        if s[0].0 == key {
            assert forall|i: int, j: int| 0 <= i < j < t.len() implies (#[trigger] t[i]).0 != (#[trigger] t[j]).0 by {
                assert(s[i].0 != s[j].0);
            }
        } else {
            let u = put(rest, key, value);
            assert forall|i: int, j: int| 0 <= i < j < t.len() implies (#[trigger] t[i]).0 != (#[trigger] t[j]).0 by {
                assert(t[j] == u[j - 1]);
                if i > 0 {
                    assert(t[i] == u[i - 1]);
                } else {
                    // An entry of `u` comes from `rest` or is the one that was put.
                    find_is_membership(u, s[0].0);
                    put_then_find(rest, key, value, s[0].0);
                    find_is_membership(rest, s[0].0);
                    if t[j].0 == s[0].0 {
                        assert(u[j - 1].0 == s[0].0);
                        let m = choose|m: int| 0 <= m < rest.len() && (#[trigger] rest[m]).0 == s[0].0;
                        assert(s[m + 1].0 == s[0].0);
                    }
                }
            }
        }
    }
}

/// Taking out a prefix leaves no key that begins with it, and every other key as it was.
pub proof fn kept_then_find<V>(s: Seq<(Seq<char>, V)>, prefix: Seq<char>, key: Seq<char>)
    ensures
        find(kept(s, prefix), key) == if begins_with(key, prefix) {
            None
        } else {
            find(s, key)
        },
    decreases s.len(),
{
    if s.len() > 0 {
        let t = s.drop_last();
        kept_then_find(t, prefix, key);
        lemma_find_push(t, s.last(), key);
        assert(t.push(s.last()) == s);
        if !begins_with(s.last().0, prefix) {
            lemma_find_push(kept(t, prefix), s.last(), key);
        }
    }
}

proof fn lemma_find_push<V>(s: Seq<(Seq<char>, V)>, e: (Seq<char>, V), key: Seq<char>)
    ensures
        find(s.push(e), key) == if find(s, key) is Some {
            find(s, key)
        } else if e.0 == key {
            Some(e.1)
        } else {
            None
        },
    decreases s.len(),
{
    if s.len() == 0 {
        assert(s.push(e).drop_first() == s);
    } else {
        lemma_find_push(s.drop_first(), e, key);
        assert(s.push(e).drop_first() == s.drop_first().push(e));
    }
}

/// Taking out a prefix keeps keys distinct.
pub proof fn kept_keeps_distinct<V>(s: Seq<(Seq<char>, V)>, prefix: Seq<char>)
    requires
        distinct(s),
    ensures
        distinct(kept(s, prefix)),
    decreases s.len(),
{
    if s.len() > 0 {
        let t = s.drop_last();
        assert(distinct(t)) by {
            assert forall|i: int, j: int| 0 <= i < j < t.len() implies (#[trigger] t[i]).0 != (#[trigger] t[j]).0 by {
                assert(s[i].0 != s[j].0);
            }
        }
        kept_keeps_distinct(t, prefix);
        if !begins_with(s.last().0, prefix) {
            let u = kept(t, prefix);
            let key = s.last().0;
            kept_then_find(t, prefix, key);
            find_is_membership(t, key);
            find_is_membership(u, key);
            assert(find(u, key) is None) by {
                if exists|m: int| 0 <= m < t.len() && (#[trigger] t[m]).0 == key {
                    let m = choose|m: int| 0 <= m < t.len() && (#[trigger] t[m]).0 == key;
                    assert(s[m].0 != s[s.len() - 1].0);
                }
            }
            let w = u.push(s.last());
            assert forall|i: int, j: int| 0 <= i < j < w.len() implies (#[trigger] w[i]).0 != (#[trigger] w[j]).0 by {
                if j == u.len() {
                    assert(u[i].0 != key);
                } else {
                    assert(u[i].0 != u[j].0);
                }
            }
        }
    }
}

/// The keys that begin with a prefix are distinct where all keys are.
pub proof fn matching_keys_are_distinct<V>(s: Seq<(Seq<char>, V)>, prefix: Seq<char>)
    requires
        distinct(s),
    ensures
        forall|i: int, j: int|
            0 <= i < j < matching(s, prefix).len() ==> (#[trigger] matching(s, prefix)[i]) != (#[trigger] matching(
                s,
                prefix,
            )[j]),
    decreases s.len(),
{
    if s.len() > 0 {
        let t = s.drop_last();
        assert(distinct(t)) by {
            assert forall|i: int, j: int| 0 <= i < j < t.len() implies (#[trigger] t[i]).0 != (#[trigger] t[j]).0 by {
                assert(s[i].0 != s[j].0);
            }
        }
        matching_keys_are_distinct(t, prefix);
        let m = matching(t, prefix);
        let key = s.last().0;
        assert forall|i: int| 0 <= i < m.len() implies (#[trigger] m[i]) != key by {
            matching_is_membership(t, prefix);
            find_is_membership(t, m[i]);
            let k = choose|k: int| 0 <= k < t.len() && (#[trigger] t[k]).0 == m[i];
            assert(s[k].0 != s[s.len() - 1].0);
        }
    }
}

// ── The map ──────────────────────────────────────────────────────────────────

/// A map from text to `V`. No key occurs twice.
pub struct StringMap<V> {
    entries: Vec<(String, V)>,
}

impl<V> View for StringMap<V> {
    type V = Seq<(Seq<char>, V)>;

    closed spec fn view(&self) -> Seq<(Seq<char>, V)> {
        entries_of(self.entries@)
    }
}

/// What the entries of a map say.
spec fn entries_of<V>(entries: Seq<(String, V)>) -> Seq<(Seq<char>, V)> {
    Seq::new(entries.len(), |i: int| (entries[i].0@, entries[i].1))
}

proof fn lemma_find_skip<V>(s: Seq<(Seq<char>, V)>, key: Seq<char>, i: int)
    requires
        0 <= i <= s.len(),
        forall|j: int| 0 <= j < i ==> (#[trigger] s[j]).0 != key,
    ensures
        find(s, key) == find(s.skip(i), key),
    decreases i,
{
    if i == 0 {
        assert(s.skip(0) == s);
    } else {
        lemma_find_skip(s, key, i - 1);
        assert(s.skip(i - 1).drop_first() == s.skip(i));
        assert(s.skip(i - 1)[0] == s[i - 1]);
    }
}

pub(crate) proof fn lemma_put_skip<V>(s: Seq<(Seq<char>, V)>, key: Seq<char>, value: V, i: int)
    requires
        0 <= i <= s.len(),
        forall|j: int| 0 <= j < i ==> (#[trigger] s[j]).0 != key,
    ensures
        put(s, key, value) == s.take(i) + put(s.skip(i), key, value),
    decreases i,
{
    if i == 0 {
        assert(s.skip(0) == s);
        assert(s.take(0) + put(s, key, value) == put(s, key, value));
    } else {
        lemma_put_skip(s, key, value, i - 1);
        assert(s.skip(i - 1).drop_first() == s.skip(i));
        assert(s.skip(i - 1)[0] == s[i - 1]);
        let tail = put(s.skip(i), key, value);
        assert(s.take(i - 1) + (seq![s[i - 1]] + tail) == s.take(i) + tail);
    }
}

impl<V> StringMap<V> {
    /// The invariant of the type: no key occurs twice.
    #[verifier::type_invariant]
    pub open spec fn has_distinct_keys(self) -> bool {
        distinct(self@)
    }

    /// An empty map.
    pub fn new() -> (r: StringMap<V>)
        ensures
            r@ == Seq::<(Seq<char>, V)>::empty(),
            distinct(r@),
    {
        let r: StringMap<V> = StringMap { entries: Vec::new() };
        assert(r@ =~= Seq::<(Seq<char>, V)>::empty());
        r
    }

    /// Number of entries.
    pub fn len(&self) -> (r: usize)
        ensures
            r == self@.len(),
    {
        self.entries.len()
    }

    /// Whether there is no entry.
    pub fn is_empty(&self) -> (r: bool)
        ensures
            r == (self@.len() == 0),
    {
        self.entries.len() == 0
    }

    /// Key of entry `i`.
    pub fn key_at(&self, i: usize) -> (r: &String)
        requires
            i < self@.len(),
        ensures
            r@ == self@[i as int].0,
    {
        &self.entries[i].0
    }

    /// Value of entry `i`.
    pub fn value_at(&self, i: usize) -> (r: &V)
        requires
            i < self@.len(),
        ensures
            *r == self@[i as int].1,
    {
        &self.entries[i].1
    }

    /// Position of the first entry under `key`.
    fn position(&self, key: &str) -> (r: Option<usize>)
        ensures
            match r {
                Some(i) => i < self@.len() && self@[i as int].0 == key@ && forall|j: int|
                    0 <= j < i ==> (#[trigger] self@[j]).0 != key@,
                None => forall|j: int| 0 <= j < self@.len() ==> (#[trigger] self@[j]).0 != key@,
            },
    {
        let mut i: usize = 0;
        while i < self.entries.len()
            invariant
                i <= self.entries.len(),
                self@.len() == self.entries@.len(),
                forall|j: int| 0 <= j < i ==> (#[trigger] self@[j]).0 != key@,
            decreases self.entries.len() - i,
        {
            if same(self.entries[i].0.as_str(), key) {
                assert(self@[i as int].0 == key@);
                return Some(i);
            }
            assert(self@[i as int].0 != key@);
            i = i + 1;
        }
        None
    }

    /// The value under `key`.
    pub fn get(&self, key: &str) -> (r: Option<&V>)
        ensures
            match r {
                Some(v) => find(self@, key@) == Some(*v),
                None => find(self@, key@) is None,
            },
    {
        match self.position(key) {
            Some(i) => {
                proof {
                    lemma_find_skip(self@, key@, i as int);
                }
                Some(&self.entries[i].1)
            },
            None => {
                proof {
                    lemma_find_skip(self@, key@, self@.len() as int);
                }
                None
            },
        }
    }

    /// Whether there is an entry under `key`.
    pub fn contains_key(&self, key: &str) -> (r: bool)
        ensures
            r == (find(self@, key@) is Some),
    {
        self.get(key).is_some()
    }

    /// Puts `value` under `key`.
    pub fn insert(&mut self, key: String, value: V)
        ensures
            final(self)@ == put(old(self)@, key@, value),
            distinct(final(self)@),
    {
        proof {
            use_type_invariant(&*self);
        }
        let ghost before = self@;
        let ghost name = key@;
        let at: Option<usize> = self.position(key.as_str());
        let mut entries: Vec<(String, V)> = Vec::new();
        std::mem::swap(&mut entries, &mut self.entries);
        match at {
            Some(i) => {
                entries.set(i, (key, value));
                proof {
                    lemma_put_skip(before, name, value, i as int);
                    assert(before.skip(i as int)[0] == before[i as int]);
                }
            },
            None => {
                entries.push((key, value));
                proof {
                    lemma_put_skip(before, name, value, before.len() as int);
                }
            },
        }
        proof {
            put_keeps_distinct(before, name, value);
            assert(entries_of(entries@) =~= put(before, name, value));
        }
        self.entries = entries;
    }

    /// Takes out every entry whose key begins with `prefix`; returns their keys, in order.
    pub fn remove_prefixed(&mut self, prefix: &str) -> (r: Vec<String>)
        ensures
            final(self)@ == kept(old(self)@, prefix@),
            distinct(final(self)@),
            r@.len() == matching(old(self)@, prefix@).len(),
            forall|i: int| 0 <= i < r@.len() ==> (#[trigger] r@[i])@ == matching(old(self)@, prefix@)[i],
            forall|i: int, j: int| 0 <= i < j < r@.len() ==> (#[trigger] r@[i])@ != (#[trigger] r@[j])@,
    {
        proof {
            use_type_invariant(&*self);
        }
        let ghost before = self@;
        let mut entries: Vec<(String, V)> = Vec::new();
        std::mem::swap(&mut entries, &mut self.entries);
        let mut out: Vec<String> = Vec::new();
        let mut i: usize = 0;
        let ghost mut done: int = 0;
        proof {
            assert(before.take(0) + before.skip(0) == before);
            assert(kept(before.take(0), prefix@) == before.take(0));
        }
        while i < entries.len()
            invariant
                0 <= done <= before.len(),
                i == kept(before.take(done), prefix@).len(),
                entries_of(entries@) == kept(before.take(done), prefix@) + before.skip(done),
                out@.len() == matching(before.take(done), prefix@).len(),
                forall|j: int| 0 <= j < out@.len() ==> (#[trigger] out@[j])@ == matching(
                    before.take(done),
                    prefix@,
                )[j],
            decreases before.len() - done,
        {
            let ghost held = entries_of(entries@);
            let hit: bool = starts_with(entries[i].0.as_str(), prefix);
            proof {
                assert(held.len() == entries@.len());
                assert(held[i as int] == before[done]);
                assert(before.take(done + 1).drop_last() == before.take(done));
                assert(before.take(done + 1).last() == before[done]);
            }
            if hit {
                let gone: (String, V) = entries.remove(i);
                let (key, _): (String, V) = gone;
                out.push(key);
                assert(entries_of(entries@) =~= held.remove(i as int));
                assert(entries_of(entries@) =~= kept(before.take(done + 1), prefix@) + before.skip(done + 1));
            } else {
                assert(entries_of(entries@) =~= kept(before.take(done + 1), prefix@) + before.skip(done + 1));
                i = i + 1;
            }
            proof {
                done = done + 1;
            }
        }
        proof {
            assert(entries_of(entries@).len() == entries@.len());
            assert(before.take(before.len() as int) == before);
            assert(done == before.len());
            assert(entries_of(entries@) =~= kept(before, prefix@));
            kept_keeps_distinct(before, prefix@);
            matching_keys_are_distinct(before, prefix@);
        }
        self.entries = entries;
        out
    }
}

} // verus!
