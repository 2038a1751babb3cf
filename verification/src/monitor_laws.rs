//! What holds of the monitors as a whole.

use vstd::prelude::*;
use crate::monitor::{
    find_screen, order_place, stack_order, top_z, Desk, Rect, Screen, Selector, TagId,
};

verus! {

proof fn lemma_order_place(list: Seq<Screen>, order: Seq<usize>, z: i32)
    ensures
        0 <= order_place(list, order, z) <= order.len(),
        forall|k: int|
            0 <= k < order_place(list, order, z) ==> list[(#[trigger] order[k]) as int].z <= z,
        order_place(list, order, z) < order.len() ==> list[order[order_place(list, order, z)] as int].z
            > z,
    decreases order.len(),
{
    if order.len() > 0 && list[order[0] as int].z <= z {
        let rest = order.drop_first();
        lemma_order_place(list, rest, z);
        let p = order_place(list, order, z);
        assert forall|k: int| 0 <= k < p implies list[(#[trigger] order[k]) as int].z <= z by {
            if k > 0 {
                assert(order[k] == rest[k - 1]);
            }
        }
        if p < order.len() {
            assert(order[p] == rest[p - 1]);
        }
    }
}

/// Whether a comes before b when monitors are drawn.
pub open spec fn drawn_before(list: Seq<Screen>, a: usize, b: usize) -> bool {
    list[a as int].z < list[b as int].z || (list[a as int].z == list[b as int].z && a < b)
}

/// Monitors are drawn each once, a lower one before a higher one, and those of one
/// height in the order of the list.
pub proof fn law_drawn_in_order(list: Seq<Screen>, n: nat)
    requires
        n <= list.len() <= usize::MAX,
    ensures
        stack_order(list, n).len() == n,
        forall|k: int| 0 <= k < n ==> (#[trigger] stack_order(list, n)[k]) < n,
        forall|i: usize| i < n ==> stack_order(list, n).contains(i),
        forall|i: int, j: int|
            0 <= i < j < n ==> drawn_before(
                list,
                #[trigger] stack_order(list, n)[i],
                #[trigger] stack_order(list, n)[j],
            ),
    decreases n,
{
    if n > 0 {
        let m = (n - 1) as nat;
        law_drawn_in_order(list, m);
        let below = stack_order(list, m);
        let z = list[n - 1].z;
        lemma_order_place(list, below, z);
        let p = order_place(list, below, z);
        let order = stack_order(list, n);
        let fresh = (n - 1) as usize;
        assert(order == below.insert(p, fresh));
        assert(order[p] == fresh);
        assert forall|i: usize| i < n implies order.contains(i) by {
            if i < m {
                assert(stack_order(list, m).contains(i));
                let k = choose|k: int| 0 <= k < below.len() && below[k] == i;
                assert(order[if k < p { k } else { k + 1 }] == i);
            }
        }
        assert forall|i: int, j: int| 0 <= i < j < n implies drawn_before(
            list,
            #[trigger] order[i],
            #[trigger] order[j],
        ) by {
            let a = if i < p {
                i
            } else {
                i - 1
            };
            let b = if j < p {
                j
            } else {
                j - 1
            };
            if i == p {
                if b > p {
                    assert(drawn_before(list, below[p], below[b]));
                }
                assert(order[j] == below[b]);
            } else if j == p {
                assert(order[i] == below[a]);
            } else {
                assert(order[i] == below[a] && order[j] == below[b]);
                assert(drawn_before(list, below[a], below[b]));
            }
        }
    }
}

proof fn lemma_top_z(list: Seq<Screen>, i: int)
    requires
        0 <= i < list.len(),
    ensures
        list[i].z <= top_z(list),
    decreases list.len(),
{
    if list.len() > 1 && i < list.len() - 1 {
        lemma_top_z(list.drop_last(), i);
    }
}

/// A monitor that was raised is drawn last, over every other.
pub proof fn law_raised_on_top(d: Desk, i: int)
    requires
        0 <= i < d.list.len() <= usize::MAX,
        top_z(d.list) < i32::MAX,
    ensures
        ({
            let list = d.raised(i).list;
            &&& stack_order(list, list.len()).last() == i
            &&& forall|j: int|
                0 <= j < list.len() && j != i ==> (#[trigger] list[j]).z < list[i].z
        }),
{
    let list = d.raised(i).list;
    law_drawn_in_order(list, list.len());
    let order = stack_order(list, list.len());
    assert forall|j: int| 0 <= j < list.len() && j != i implies (#[trigger] list[j]).z < list[i].z by {
        lemma_top_z(d.list, j);
    }
    let me = i as usize;
    assert(order.contains(me));
    let k = choose|k: int| 0 <= k < order.len() && order[k] == me;
    if k < order.len() - 1 {
        assert(drawn_before(list, order[k], order[order.len() - 1]));
        if order[order.len() - 1] != me {
            assert(list[order[order.len() - 1] as int].z < list[i].z);
        }
    }
}

/// A monitor locked to a tag shows that tag, and no other can be shown on it.
pub proof fn law_lock_holds(d: Desk, i: int, tag: TagId, other: TagId)
    requires
        0 <= i < d.list.len(),
    ensures
        d.locked(i, tag).list[i].tag == tag,
        d.locked(i, tag).with_focus(i).show(other).list[i].tag == tag,
{
}

/// A fresh set of monitors shows the tags from 1 on, one each.
pub proof fn law_fresh_tags(d: Desk, rects: Seq<Rect>)
    requires
        rects.len() < u32::MAX,
    ensures
        d.reset(rects).list.len() == rects.len(),
        forall|i: int| 0 <= i < rects.len() ==> (#[trigger] d.reset(rects).list[i]).tag == i + 1,
        forall|i: int| 0 <= i < rects.len() ==> (#[trigger] d.reset(rects).list[i]).rect == rects[i],
{
}

/// Whatever is done to the monitors, a focus that is on one of them stays on one while
/// there are any.
pub proof fn law_focus_in_range(
    d: Desk,
    rects: Seq<Rect>,
    rect: Rect,
    tag: TagId,
    i: int,
    m: Screen,
    delta: int,
)
    requires
        d.in_range(),
        0 <= i < d.list.len(),
    ensures
        d.reset(rects).in_range(),
        d.with_monitor(rect, tag, None).in_range(),
        d.with_screen(i, m).in_range(),
        d.with_focus(i).in_range(),
        d.without(i).in_range(),
        d.cycled(delta).in_range(),
        d.show(tag).in_range(),
        d.raised(i).in_range(),
        d.locked(i, tag).in_range(),
{
}

/// Going round the monitors and back again ends where it began.
pub proof fn law_cycle_monitor_back(d: Desk, delta: int)
    requires
        d.in_range(),
    ensures
        d.cycled(delta).cycled(-delta) == d,
{
    if d.list.len() > 0 {
        let n = d.list.len() as int;
        let k = (d.focus + delta) / n;
        let m = (d.focus + delta) % n;
        assert(d.focus + delta == k * n + m) by (nonlinear_arith)
            requires
                k == (d.focus + delta) / n,
                m == (d.focus + delta) % n,
                n > 0,
        ;
        assert(m - delta == (-k) * n + d.focus) by (nonlinear_arith)
            requires
                d.focus + delta == k * n + m,
        ;
        vstd::arithmetic::div_mod::lemma_fundamental_div_mod_converse(m - delta, n, -k, d.focus);
    }
}

/// A monitor that is added comes last in the list, is found under its name where no
/// other has it, and lies no lower than any other.
pub proof fn law_added_is_found(d: Desk, rect: Rect, tag: TagId, name: Seq<char>)
    requires
        find_screen(d.list, Selector::Name(name)) is None,
    ensures
        ({
            let e = d.with_monitor(rect, tag, Some(name));
            &&& find_screen(e.list, Selector::Name(name)) == Some(d.list.len() as int)
            &&& e.list[d.list.len() as int].rect == rect
            &&& e.list[d.list.len() as int].tag == tag
            &&& forall|j: int|
                0 <= j < d.list.len() ==> (#[trigger] e.list[j]).z <= e.list[d.list.len() as int].z
        }),
{
    let e = d.with_monitor(rect, tag, Some(name));
    lemma_named_last(d.list, e.list.last(), name);
    assert forall|j: int| 0 <= j < d.list.len() implies (#[trigger] e.list[j]).z <= e.list[d.list.len()
        as int].z by {
        lemma_top_z(d.list, j);
    }
}

proof fn lemma_named_last(list: Seq<Screen>, m: Screen, name: Seq<char>)
    requires
        crate::monitor::named_place(list, name) >= list.len(),
        m.name == Some(name),
    ensures
        crate::monitor::named_place(list.push(m), name) == list.len(),
    decreases list.len(),
{
    if list.len() > 0 {
        assert(list.push(m).drop_first() =~= list.drop_first().push(m));
        lemma_named_last(list.drop_first(), m, name);
    }
}

} // verus!
