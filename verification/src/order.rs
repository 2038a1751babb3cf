//! Putting things in the order of texts that they go by.

use vstd::prelude::*;
use crate::table::{comes_before, text_before};
use crate::text::{same, Text};

verus! {

/// What a thing goes by: a text, and another one where the first is the same.
pub type SortKey = (Text, Text);

/// Whether what goes by one key comes before what goes by another.
pub open spec fn key_before(a: SortKey, b: SortKey) -> bool {
    text_before(a.0, b.0) || (a.0 == b.0 && text_before(a.1, b.1))
}

/// The place among those that are in order where the thing of the number goes: before the
/// first that it comes before.
pub open spec fn number_place(keys: Seq<SortKey>, order: Seq<usize>, i: usize) -> int
    decreases order.len(),
{
    if order.len() == 0 || key_before(keys[i as int], keys[order[0] as int]) {
        0
    } else {
        1 + number_place(keys, order.drop_first(), i)
    }
}

/// The numbers of the first `n` things, in the order of their keys; those of one key as
/// they come.
pub open spec fn key_order(keys: Seq<SortKey>, n: nat) -> Seq<usize>
    decreases n,
{
    if n == 0 {
        Seq::empty()
    } else {
        let front = key_order(keys, (n - 1) as nat);
        let i = (n - 1) as usize;
        front.insert(number_place(keys, front, i), i)
    }
}

/// Tells whether what goes by one key comes before what goes by another.
fn goes_before(a: &(String, String), b: &(String, String)) -> (r: bool)
    ensures
        r == key_before(a.deep_view(), b.deep_view()),
{
    comes_before(a.0.as_str(), b.0.as_str()) || (same(a.0.as_str(), b.0.as_str()) && comes_before(
        a.1.as_str(),
        b.1.as_str(),
    ))
}

/// The numbers of the keys, in their order.
pub fn order_by_keys(keys: &Vec<(String, String)>) -> (r: Vec<usize>)
    ensures
        r@ == key_order(keys.deep_view(), keys@.len()),
        forall|k: int| 0 <= k < r@.len() ==> #[trigger] r@[k] < keys@.len(),
{
    let ghost all = keys.deep_view();
    let mut r: Vec<usize> = Vec::new();
    let mut i: usize = 0;
    while i < keys.len()
        invariant
            i <= keys@.len() == all.len(),
            all == keys.deep_view(),
            r@ == key_order(all, i as nat),
            forall|k: int| 0 <= k < r@.len() ==> #[trigger] r@[k] < i,
        decreases keys@.len() - i,
    {
        let mut at: usize = 0;
        assert(r@.skip(0) =~= r@);
        assert(all[i as int] == keys@[i as int].deep_view());
        while at < r.len() && !goes_before(&keys[i], &keys[r[at]])
            invariant
                at <= r@.len(),
                i < keys@.len() == all.len(),
                all == keys.deep_view(),
                forall|k: int| 0 <= k < r@.len() ==> #[trigger] r@[k] < i,
                number_place(all, r@, i) == at + number_place(all, r@.skip(at as int), i),
            decreases r@.len() - at,
        {
            assert(r@.skip(at as int)[0] == r@[at as int]);
            assert(all[r@[at as int] as int] == keys@[r@[at as int] as int].deep_view());
            assert(all[i as int] == keys@[i as int].deep_view());
            assert(r@.skip(at as int).drop_first() =~= r@.skip(at + 1));
            at += 1;
        }
        proof {
            if at < r@.len() {
                assert(r@.skip(at as int)[0] == r@[at as int]);
                assert(all[r@[at as int] as int] == keys@[r@[at as int] as int].deep_view());
                assert(all[i as int] == keys@[i as int].deep_view());
            }
            assert(number_place(all, r@, i) == at);
        }
        r.insert(at, i);
        i += 1;
    }
    r
}

// --- laws ---------------------------------------------------------------------------------

/// Characters of one code are one.
proof fn lemma_codes(x: char, y: char)
    ensures
        x as u32 == y as u32 ==> x == y,
{
}

/// Neither of two texts comes before the other only where they are the same.
proof fn lemma_same_text(a: Text, b: Text)
    requires
        !text_before(a, b),
        !text_before(b, a),
    ensures
        a == b,
    decreases a.len(),
{
    if a.len() == 0 || b.len() == 0 {
        assert(a =~= b);
    } else {
        lemma_codes(a[0], b[0]);
        lemma_same_text(a.drop_first(), b.drop_first());
        assert(a =~= seq![a[0]] + a.drop_first());
        assert(b =~= seq![b[0]] + b.drop_first());
    }
}

/// A text does not come before itself.
pub proof fn lemma_not_itself(a: Text)
    ensures
        !text_before(a, a),
    decreases a.len(),
{
    if a.len() > 0 {
        lemma_not_itself(a.drop_first());
    }
}

/// What does not come before what does not come before a third does not come before it.
proof fn lemma_text_chain(a: Text, b: Text, c: Text)
    requires
        !text_before(b, a),
        !text_before(c, b),
    ensures
        !text_before(c, a),
    decreases a.len(),
{
    if a.len() > 0 && b.len() > 0 && c.len() > 0 {
        lemma_codes(a[0], b[0]);
        lemma_codes(b[0], c[0]);
        if a[0] == b[0] && b[0] == c[0] {
            lemma_text_chain(a.drop_first(), b.drop_first(), c.drop_first());
        }
    }
}

/// Of two texts that differ one comes before the other.
pub proof fn lemma_either_first(a: Text, b: Text)
    requires
        a != b,
    ensures
        text_before(a, b) || text_before(b, a),
{
    if !text_before(a, b) && !text_before(b, a) {
        lemma_same_text(a, b);
    }
}

/// What comes before what comes before a third comes before it.
pub proof fn lemma_before_chain(a: Text, b: Text, c: Text)
    requires
        text_before(a, b),
        text_before(b, c),
    ensures
        text_before(a, c),
{
    lemma_text_one_way(b, c);
    if !text_before(a, c) {
        lemma_text_chain(b, c, a);
    }
}

/// A key that comes before another is not one that the other comes before.
proof fn lemma_key_one_way(a: SortKey, b: SortKey)
    requires
        key_before(a, b),
    ensures
        !key_before(b, a),
{
    lemma_not_itself(a.0);
    lemma_not_itself(a.1);
    if text_before(b.0, a.0) {
        if text_before(a.0, b.0) {
            lemma_text_one_way(a.0, b.0);
        }
    }
    if a.0 == b.0 && text_before(b.1, a.1) {
        lemma_not_itself(b.0);
        lemma_text_one_way(a.1, b.1);
    }
}

proof fn lemma_text_one_way(a: Text, b: Text)
    requires
        text_before(a, b),
    ensures
        !text_before(b, a),
    decreases a.len(),
{
    if a.len() > 0 && b.len() > 0 && a[0] == b[0] {
        lemma_text_one_way(a.drop_first(), b.drop_first());
    }
}

proof fn lemma_key_chain(a: SortKey, b: SortKey, c: SortKey)
    requires
        !key_before(b, a),
        !key_before(c, b),
    ensures
        !key_before(c, a),
{
    lemma_text_chain(a.0, b.0, c.0);
    if c.0 == a.0 {
        if a.0 != b.0 {
            if !text_before(a.0, b.0) {
                lemma_same_text(a.0, b.0);
            } else {
                lemma_text_one_way(a.0, b.0);
                assert(text_before(c.0, b.0));
            }
        }
        lemma_text_chain(a.1, b.1, c.1);
    }
}

/// Whether the things are in the order of their keys, each of the first `n` once.
pub open spec fn ordered(keys: Seq<SortKey>, order: Seq<usize>, n: nat) -> bool {
    &&& order.len() == n
    &&& forall|k: int| 0 <= k < n ==> 0 <= #[trigger] order[k] < n
    &&& order.no_duplicates()
    &&& forall|j: int, k: int|
        0 <= j < k < n ==> !key_before(keys[#[trigger] order[k] as int], keys[#[trigger] order[j] as int])
}

proof fn lemma_number_place(keys: Seq<SortKey>, order: Seq<usize>, i: usize)
    ensures
        0 <= number_place(keys, order, i) <= order.len(),
        number_place(keys, order, i) < order.len() ==> key_before(
            keys[i as int],
            keys[order[number_place(keys, order, i)] as int],
        ),
        forall|j: int|
            0 <= j < number_place(keys, order, i) ==> !key_before(
                keys[i as int],
                keys[#[trigger] order[j] as int],
            ),
    decreases order.len(),
{
    if order.len() > 0 && !key_before(keys[i as int], keys[order[0] as int]) {
        lemma_number_place(keys, order.drop_first(), i);
        let p = number_place(keys, order.drop_first(), i);
        assert forall|j: int| 0 <= j < 1 + p implies !key_before(
            keys[i as int],
            keys[#[trigger] order[j] as int],
        ) by {
            if j > 0 {
                assert(order.drop_first()[j - 1] == order[j]);
            }
        }
    }
}

/// What is put in order is in order, and each thing is there once.
pub proof fn law_ordered(keys: Seq<SortKey>, n: nat)
    requires
        n <= keys.len(),
        n <= usize::MAX,
    ensures
        ordered(keys, key_order(keys, n), n),
    decreases n,
{
    if n > 0 {
        let m = (n - 1) as nat;
        law_ordered(keys, m);
        let front = key_order(keys, m);
        let i = m as usize;
        lemma_number_place(keys, front, i);
        let p = number_place(keys, front, i);
        let r = front.insert(p, i);
        assert(r == key_order(keys, n));
        assert forall|k: int| 0 <= k < n implies 0 <= #[trigger] r[k] < n by {
            if k < p {
                assert(r[k] == front[k]);
            } else if k > p {
                assert(r[k] == front[k - 1]);
            }
        }
        assert forall|j: int, k: int| 0 <= j < k < n implies #[trigger] r[j] != #[trigger] r[k] by {
            let a = if j < p { j } else { j - 1 };
            let b = if k < p { k } else { k - 1 };
            if j != p {
                assert(r[j] == front[a]);
            }
            if k != p {
                assert(r[k] == front[b]);
            }
        }
        assert forall|j: int, k: int| 0 <= j < k < n implies !key_before(
            keys[#[trigger] r[k] as int],
            keys[#[trigger] r[j] as int],
        ) by {
            if j < p && k < p {
                assert(r[j] == front[j] && r[k] == front[k]);
            } else if j < p && k == p {
                assert(r[j] == front[j] && r[k] == i);
            } else if j < p {
                assert(r[j] == front[j] && r[k] == front[k - 1]);
            } else if j == p {
                assert(r[j] == i && r[k] == front[k - 1]);
                lemma_key_one_way(keys[i as int], keys[front[p] as int]);
                if k - 1 > p {
                    lemma_key_chain(
                        keys[i as int],
                        keys[front[p] as int],
                        keys[front[k - 1] as int],
                    );
                }
            } else {
                assert(r[j] == front[j - 1] && r[k] == front[k - 1]);
            }
        }
    }
}

} // verus!
