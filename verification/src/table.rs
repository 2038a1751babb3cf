//! Small tables: lists of pairs in which no key occurs twice.

use vstd::prelude::*;
use crate::text::{same, Text};

verus! {

/// The place of a key in a table; the table's length where it is not there.
pub open spec fn key_place<K, V>(s: Seq<(K, V)>, k: K) -> int
    decreases s.len(),
{
    if s.len() == 0 || s[0].0 == k {
        0
    } else {
        1 + key_place(s.drop_first(), k)
    }
}

/// The value of a key.
pub open spec fn value_of<K, V>(s: Seq<(K, V)>, k: K) -> Option<V> {
    if key_place(s, k) < s.len() {
        Some(s[key_place(s, k)].1)
    } else {
        None
    }
}

/// The table with a value for the key, in the place of the old one or at the end.
pub open spec fn put<K, V>(s: Seq<(K, V)>, k: K, v: V) -> Seq<(K, V)> {
    if key_place(s, k) < s.len() {
        s.update(key_place(s, k), (k, v))
    } else {
        s.push((k, v))
    }
}

/// The table without the key.
pub open spec fn drop_key<K, V>(s: Seq<(K, V)>, k: K) -> Seq<(K, V)> {
    if key_place(s, k) < s.len() {
        s.remove(key_place(s, k))
    } else {
        s
    }
}

/// No key occurs twice.
pub open spec fn keys_differ<K, V>(s: Seq<(K, V)>) -> bool {
    forall|i: int, j: int| 0 <= i < j < s.len() ==> (#[trigger] s[i]).0 != (#[trigger] s[j]).0
}

/// What `key_place` finds.
pub proof fn lemma_key_place<K, V>(s: Seq<(K, V)>, k: K)
    ensures
        0 <= key_place(s, k) <= s.len(),
        key_place(s, k) < s.len() ==> s[key_place(s, k)].0 == k,
        forall|j: int| 0 <= j < key_place(s, k) ==> (#[trigger] s[j]).0 != k,
    decreases s.len(),
{
    if s.len() > 0 && s[0].0 != k {
        lemma_key_place(s.drop_first(), k);
        assert forall|j: int| 0 <= j < key_place(s, k) implies (#[trigger] s[j]).0 != k by {
            if j > 0 {
                assert(s[j] == s.drop_first()[j - 1]);
            }
        }
    }
}

/// A place that holds the key, with none before it that does, is the key's.
pub proof fn lemma_key_place_is<K, V>(s: Seq<(K, V)>, k: K, i: int)
    requires
        0 <= i <= s.len(),
        i < s.len() ==> s[i].0 == k,
        forall|j: int| 0 <= j < i ==> (#[trigger] s[j]).0 != k,
    ensures
        key_place(s, k) == i,
{
    lemma_key_place(s, k);
    let p = key_place(s, k);
    if p < i {
        assert(s[p].0 != k);
    }
    if i < p {
        assert(s[i].0 != k);
    }
}

/// A value that was put is found.
pub proof fn lemma_put<K, V>(s: Seq<(K, V)>, k: K, v: V)
    ensures
        value_of(put(s, k, v), k) == Some(v),
{
    lemma_key_place(s, k);
    let t = put(s, k, v);
    let p = key_place(s, k);
    assert forall|j: int| 0 <= j < p implies (#[trigger] t[j]).0 != k by {
        assert(s[j].0 != k);
    }
    lemma_key_place_is(t, k, p);
}

/// A value that was put is found, every other is as it was, and no key occurs twice.
pub proof fn law_put<K, V>(s: Seq<(K, V)>, k: K, v: V, other: K)
    requires
        keys_differ(s),
    ensures
        value_of(put(s, k, v), k) == Some(v),
        other != k ==> value_of(put(s, k, v), other) == value_of(s, other),
        keys_differ(put(s, k, v)),
{
    lemma_key_place(s, k);
    lemma_key_place(s, other);
    let t = put(s, k, v);
    let p = key_place(s, k);
    assert forall|j: int| 0 <= j < p implies (#[trigger] t[j]).0 != k by {
        assert(s[j].0 != k);
    }
    lemma_key_place_is(t, k, p);
    if other != k {
        let q = key_place(s, other);
        if q < s.len() {
            assert(t[q] == s[q]);
            assert forall|j: int| 0 <= j < q implies (#[trigger] t[j]).0 != other by {
                if j != p {
                    assert(s[j].0 != other);
                }
            }
            lemma_key_place_is(t, other, q);
        } else {
            assert forall|j: int| 0 <= j < t.len() implies (#[trigger] t[j]).0 != other by {
                if j != p {
                    assert(s[j].0 != other);
                }
            }
            lemma_key_place_is(t, other, t.len() as int);
        }
    }
    assert forall|i: int, j: int| 0 <= i < j < t.len() implies (#[trigger] t[i]).0 != (#[trigger] t[j]).0 by {
        if p < s.len() {
            assert(t[i].0 == s[i].0 && t[j].0 == s[j].0);
        } else if j == s.len() {
            assert(s[i].0 != k);
        } else {
            assert(t[i] == s[i] && t[j] == s[j]);
        }
    }
}

/// A key that was dropped is not found, every other is as it was, and no key occurs
/// twice.
pub proof fn law_drop_key<K, V>(s: Seq<(K, V)>, k: K, other: K)
    requires
        keys_differ(s),
    ensures
        value_of(drop_key(s, k), k) is None,
        other != k ==> value_of(drop_key(s, k), other) == value_of(s, other),
        keys_differ(drop_key(s, k)),
{
    lemma_key_place(s, k);
    lemma_key_place(s, other);
    let p = key_place(s, k);
    let t = drop_key(s, k);
    if p < s.len() {
        assert forall|j: int| 0 <= j < t.len() implies (#[trigger] t[j]).0 != k by {
            if j < p {
                assert(t[j] == s[j]);
            } else {
                assert(t[j] == s[j + 1]);
                assert(s[p].0 != s[j + 1].0);
            }
        }
        lemma_key_place_is(t, k, t.len() as int);
        let q = key_place(s, other);
        if other != k {
            let r = if q < p {
                q
            } else {
                q - 1
            };
            assert forall|j: int| 0 <= j < r implies (#[trigger] t[j]).0 != other by {
                if j < p {
                    assert(t[j] == s[j]);
                } else {
                    assert(t[j] == s[j + 1]);
                }
            }
            if r < t.len() {
                assert(t[r] == s[q]);
            }
            lemma_key_place_is(t, other, r);
        }
        assert forall|i: int, j: int| 0 <= i < j < t.len() implies (#[trigger] t[i]).0
            != (#[trigger] t[j]).0 by {
            assert(t[i] == s[if i < p { i } else { i + 1 }]);
            assert(t[j] == s[if j < p { j } else { j + 1 }]);
        }
    }
}

/// The place of a number among the keys of a table.
pub fn find_key<V: DeepView>(s: &Vec<(u64, V)>, k: u64) -> (r: usize)
    ensures
        r == key_place(s.deep_view(), k),
        r <= s@.len(),
        r < s@.len() ==> s@[r as int].0 == k,
{
    let mut i: usize = 0;
    while i < s.len() && s[i].0 != k
        invariant
            i <= s@.len(),
            forall|j: int| 0 <= j < i ==> (#[trigger] s.deep_view()[j]).0 != k,
        decreases s@.len() - i,
    {
        i += 1;
    }
    proof {
        if i < s@.len() {
            assert(s.deep_view()[i as int].0 == k);
        }
        lemma_key_place_is(s.deep_view(), k, i as int);
    }
    i
}

/// Puts a value into a table.
pub fn put_key<V: DeepView>(s: &mut Vec<(u64, V)>, k: u64, v: V)
    ensures
        final(s).deep_view() == put(old(s).deep_view(), k, v.deep_view()),
{
    let i: usize = find_key(s, k);
    if i < s.len() {
        s.set(i, (k, v));
    } else {
        s.push((k, v));
    }
    assert(s.deep_view() =~= put(old(s).deep_view(), k, v.deep_view()));
}

/// Drops a key from a table; says whether it was there.
pub fn remove_key<V: DeepView>(s: &mut Vec<(u64, V)>, k: u64) -> (r: bool)
    ensures
        r == (value_of(old(s).deep_view(), k) is Some),
        final(s).deep_view() == drop_key(old(s).deep_view(), k),
{
    let i: usize = find_key(s, k);
    if i < s.len() {
        s.remove(i);
        assert(s.deep_view() =~= drop_key(old(s).deep_view(), k));
        true
    } else {
        false
    }
}

/// The place of a name among the keys of a table.
pub fn find_name<V: DeepView>(s: &Vec<(String, V)>, k: &str) -> (r: usize)
    ensures
        r == key_place(s.deep_view(), k@),
        r <= s@.len(),
        r < s@.len() ==> s@[r as int].0@ == k@,
{
    let mut i: usize = 0;
    while i < s.len() && !same(s[i].0.as_str(), k)
        invariant
            i <= s@.len(),
            forall|j: int| 0 <= j < i ==> (#[trigger] s.deep_view()[j]).0 != k@,
        decreases s@.len() - i,
    {
        i += 1;
    }
    proof {
        if i < s@.len() {
            assert(s.deep_view()[i as int].0 == k@);
        }
        lemma_key_place_is(s.deep_view(), k@, i as int);
    }
    i
}

/// Puts a value into a table, under a name.
pub fn put_name<V: DeepView>(s: &mut Vec<(String, V)>, k: String, v: V)
    ensures
        final(s).deep_view() == put(old(s).deep_view(), k@, v.deep_view()),
{
    let i: usize = find_name(s, k.as_str());
    let ghost pair = (k, v).deep_view();
    if i < s.len() {
        s.set(i, (k, v));
    } else {
        s.push((k, v));
    }
    assert(s.deep_view() =~= put(old(s).deep_view(), pair.0, pair.1));
}

/// Drops a name from a table; says whether it was there.
pub fn remove_name<V: DeepView>(s: &mut Vec<(String, V)>, k: &str) -> (r: bool)
    ensures
        r == (value_of(old(s).deep_view(), k@) is Some),
        final(s).deep_view() == drop_key(old(s).deep_view(), k@),
{
    let i: usize = find_name(s, k);
    if i < s.len() {
        s.remove(i);
        assert(s.deep_view() =~= drop_key(old(s).deep_view(), k@));
        true
    } else {
        false
    }
}

// --- order of texts --------------------------------------------------------------

/// Whether one text comes before another, as in a dictionary of code points.
pub open spec fn text_before(a: Text, b: Text) -> bool
    decreases a.len(),
{
    if b.len() == 0 {
        false
    } else if a.len() == 0 {
        true
    } else if a[0] == b[0] {
        text_before(a.drop_first(), b.drop_first())
    } else {
        (a[0] as u32) < (b[0] as u32)
    }
}

/// Whether one string comes before another.
pub fn comes_before(a: &str, b: &str) -> (r: bool)
    ensures
        r == text_before(a@, b@),
{
    let x = crate::text::chars_of(a);
    let y = crate::text::chars_of(b);
    let mut i: usize = 0;
    assert(x@.skip(0) =~= x@ && y@.skip(0) =~= y@);
    while i < x.len() && i < y.len() && x[i] == y[i]
        invariant
            i <= x@.len(),
            i <= y@.len(),
            text_before(x@, y@) == text_before(x@.skip(i as int), y@.skip(i as int)),
        decreases x@.len() - i,
    {
        assert(x@.skip(i as int).drop_first() =~= x@.skip(i + 1));
        assert(y@.skip(i as int).drop_first() =~= y@.skip(i + 1));
        i += 1;
    }
    if i == y.len() {
        false
    } else if i == x.len() {
        true
    } else {
        (x[i] as u32) < (y[i] as u32)
    }
}

/// The place among `lines` where a text goes: before the first that it comes before.
pub open spec fn line_place(lines: Seq<Text>, t: Text) -> int
    decreases lines.len(),
{
    if lines.len() == 0 || text_before(t, lines[0]) {
        0
    } else {
        1 + line_place(lines.drop_first(), t)
    }
}

/// The texts in order.
pub open spec fn in_order(lines: Seq<Text>) -> Seq<Text>
    decreases lines.len(),
{
    if lines.len() == 0 {
        lines
    } else {
        let front = in_order(lines.drop_last());
        front.insert(line_place(front, lines.last()), lines.last())
    }
}

/// Puts strings in order.
pub fn sort_strings(lines: &Vec<String>) -> (r: Vec<String>)
    ensures
        r.deep_view() == in_order(lines.deep_view()),
        r@.len() == lines@.len(),
{
    let mut r: Vec<String> = Vec::new();
    let mut i: usize = 0;
    let ghost all = lines.deep_view();
    assert(all.take(0) =~= Seq::<Text>::empty());
    assert(r.deep_view() =~= Seq::<Text>::empty());
    while i < lines.len()
        invariant
            i <= lines@.len(),
            all == lines.deep_view(),
            r.deep_view() == in_order(all.take(i as int)),
            r@.len() == i,
        decreases lines@.len() - i,
    {
        let ghost front = r.deep_view();
        let mut at: usize = 0;
        assert(front.skip(0) =~= front);
        while at < r.len() && !comes_before(lines[i].as_str(), r[at].as_str())
            invariant
                at <= r@.len(),
                i < lines@.len(),
                front == r.deep_view(),
                line_place(front, lines@[i as int]@) == at + line_place(
                    front.skip(at as int),
                    lines@[i as int]@,
                ),
            decreases r@.len() - at,
        {
            assert(front.skip(at as int)[0] == r@[at as int]@);
            assert(front.skip(at as int).drop_first() =~= front.skip(at + 1));
            at += 1;
        }
        proof {
            if at < r@.len() {
                assert(front.skip(at as int)[0] == r@[at as int]@);
            }
            assert(line_place(front, lines@[i as int]@) == at);
        }
        r.insert(at, lines[i].clone());
        i += 1;
        proof {
            assert(all.take(i as int).drop_last() =~= all.take(i - 1));
            assert(all.take(i as int).last() == lines@[i - 1]@);
            assert(r.deep_view() =~= front.insert(at as int, lines@[i - 1]@));
        }
    }
    assert(all.take(i as int) =~= all);
    r
}

} // verus!
