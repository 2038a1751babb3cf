//! Laws of the layout: every window that is shown is laid out once, in the right order.

use vstd::prelude::*;
use crate::frame::{Placement, WinId};
use crate::frame_laws::law_place_all;
use crate::layout::{
    apart, below, claim, dock_item, float_item, gathered, inset, layout, of_screens, on_screen, on_screens,
    screen_place, stack_in, tag_gap, tag_places, taken, tile, with_docks, with_floats, with_tiles,
    Layer, RenderItem,
};
use crate::monitor::{order_place, shrink, stack_order, Screen};
use crate::rules::DockAnchor;
use crate::state::{Window, World};

verus! {

/// No window has two items.
pub open spec fn single(all: Seq<RenderItem>) -> bool {
    forall|i: int, j: int|
        0 <= i < j < all.len() ==> (#[trigger] all[i]).win != (#[trigger] all[j]).win
}

/// Each item of some is among others.
pub open spec fn within(some: Seq<RenderItem>, all: Seq<RenderItem>) -> bool {
    forall|i: int| 0 <= i < some.len() ==> all.contains(#[trigger] some[i])
}

proof fn lemma_claim(all: Seq<RenderItem>, it: RenderItem)
    ensures
        single(all) ==> single(claim(all, it)),
        within(all, claim(all, it)),
        taken(claim(all, it), it.win),
        forall|i: int|
            0 <= i < claim(all, it).len() ==> all.contains(#[trigger] claim(all, it)[i])
                || claim(all, it)[i] == it,
{
    let now = claim(all, it);
    assert forall|i: int| 0 <= i < all.len() implies now.contains(#[trigger] all[i]) by {
        assert(now[i] == all[i]);
    }
    if !taken(all, it.win) {
        assert(now[all.len() as int] == it);
    }
    assert forall|i: int| 0 <= i < now.len() implies all.contains(#[trigger] now[i]) || now[i]
        == it by {
        if i < all.len() {
            assert(now[i] == all[i]);
        }
    }
}

/// What is within others that are within more is within these.
proof fn lemma_within(a: Seq<RenderItem>, b: Seq<RenderItem>, c: Seq<RenderItem>)
    requires
        within(a, b),
        within(b, c),
    ensures
        within(a, c),
{
    assert forall|i: int| 0 <= i < a.len() implies c.contains(#[trigger] a[i]) by {
        let k = choose|k: int| 0 <= k < b.len() && b[k] == a[i];
        assert(c.contains(b[k]));
    }
}

/// A window that is among items is among any that hold them.
proof fn lemma_still_taken(a: Seq<RenderItem>, b: Seq<RenderItem>, win: WinId)
    requires
        within(a, b),
        taken(a, win),
    ensures
        taken(b, win),
{
    let i = choose|i: int| 0 <= i < a.len() && (#[trigger] a[i]).win == win;
    let k = choose|k: int| 0 <= k < b.len() && b[k] == a[i];
    assert(b[k].win == win);
}

proof fn lemma_tiles(w: World, all: Seq<RenderItem>, mi: usize, ps: Seq<Placement>)
    requires
        single(all),
        forall|i: int| 0 <= i < all.len() ==> (#[trigger] all[i]).mon < w.desk.list.len(),
        mi < w.desk.list.len(),
    ensures
        single(with_tiles(w, all, mi, ps)),
        within(all, with_tiles(w, all, mi, ps)),
        forall|i: int|
            0 <= i < with_tiles(w, all, mi, ps).len() ==> (#[trigger] with_tiles(
                w,
                all,
                mi,
                ps,
            )[i]).mon < w.desk.list.len(),
        forall|i: int|
            0 <= i < with_tiles(w, all, mi, ps).len() ==> all.contains(
                #[trigger] with_tiles(w, all, mi, ps)[i],
            ) || with_tiles(w, all, mi, ps)[i].mon == mi,
        forall|k: int|
            0 <= k < ps.len() && !apart(w, (#[trigger] ps[k]).win) ==> taken(
                with_tiles(w, all, mi, ps),
                ps[k].win,
            ),
    decreases ps.len(),
{
    let now = with_tiles(w, all, mi, ps);
    if ps.len() == 0 {
        assert forall|i: int| 0 <= i < all.len() implies now.contains(#[trigger] all[i]) by {
            assert(now[i] == all[i]);
        }
    } else {
        let front = ps.drop_last();
        let before = with_tiles(w, all, mi, front);
        lemma_tiles(w, all, mi, front);
        if !apart(w, ps.last().win) {
            let it = tile(w, mi, ps.last());
            lemma_claim(before, it);
            lemma_within(all, before, now);
            assert forall|i: int| 0 <= i < now.len() implies (#[trigger] now[i]).mon
                < w.desk.list.len() && (all.contains(now[i]) || now[i].mon == mi) by {
                if now[i] != it {
                    assert(before.contains(now[i]));
                    let k = choose|k: int| 0 <= k < before.len() && before[k] == now[i];
                    assert(before[k].mon < w.desk.list.len());
                }
            }
        }
        assert forall|k: int| 0 <= k < ps.len() && !apart(w, (#[trigger] ps[k]).win) implies taken(
            now,
            ps[k].win,
        ) by {
            if k < front.len() {
                assert(ps[k] == front[k]);
                assert(taken(before, front[k].win));
                if !apart(w, ps.last().win) {
                    lemma_still_taken(before, now, ps[k].win);
                }
            }
        }
    }
}

proof fn lemma_floats(w: World, all: Seq<RenderItem>, mi: usize, tag: u32, ws: Seq<Window>)
    requires
        single(all),
        forall|i: int| 0 <= i < all.len() ==> (#[trigger] all[i]).mon < w.desk.list.len(),
        mi < w.desk.list.len(),
    ensures
        single(with_floats(w, all, mi, tag, ws)),
        within(all, with_floats(w, all, mi, tag, ws)),
        forall|i: int|
            0 <= i < with_floats(w, all, mi, tag, ws).len() ==> (#[trigger] with_floats(
                w,
                all,
                mi,
                tag,
                ws,
            )[i]).mon < w.desk.list.len(),
        forall|k: int|
            0 <= k < ws.len() && (#[trigger] ws[k]).tag == tag && w.floats(ws[k]) ==> taken(
                with_floats(w, all, mi, tag, ws),
                ws[k].id,
            ),
    decreases ws.len(),
{
    let now = with_floats(w, all, mi, tag, ws);
    if ws.len() == 0 {
        assert forall|i: int| 0 <= i < all.len() implies now.contains(#[trigger] all[i]) by {
            assert(now[i] == all[i]);
        }
    } else {
        let front = ws.drop_last();
        let before = with_floats(w, all, mi, tag, front);
        lemma_floats(w, all, mi, tag, front);
        let adds = ws.last().tag == tag && w.floats(ws.last());
        if adds {
            let it = float_item(mi, ws.last());
            lemma_claim(before, it);
            lemma_within(all, before, now);
            assert forall|i: int| 0 <= i < now.len() implies (#[trigger] now[i]).mon
                < w.desk.list.len() by {
                if now[i] != it {
                    let k = choose|k: int| 0 <= k < before.len() && before[k] == now[i];
                    assert(before[k].mon < w.desk.list.len());
                }
            }
        }
        assert forall|k: int|
            0 <= k < ws.len() && (#[trigger] ws[k]).tag == tag && w.floats(ws[k]) implies taken(
            now,
            ws[k].id,
        ) by {
            if k < front.len() {
                assert(ws[k] == front[k]);
                assert(taken(before, front[k].id));
                if adds {
                    lemma_still_taken(before, now, ws[k].id);
                }
            }
        }
    }
}

proof fn lemma_screen_place(list: Seq<Screen>, x: int, y: int)
    ensures
        0 <= screen_place(list, x, y) <= list.len(),
    decreases list.len(),
{
    if list.len() > 0 {
        lemma_screen_place(list.drop_first(), x, y);
    }
}

proof fn lemma_docks(w: World, all: Seq<RenderItem>, ws: Seq<Window>)
    requires
        single(all),
        w.desk.list.len() <= usize::MAX,
        forall|i: int| 0 <= i < all.len() ==> (#[trigger] all[i]).mon < w.desk.list.len(),
    ensures
        single(with_docks(w, all, ws)),
        within(all, with_docks(w, all, ws)),
        forall|i: int|
            0 <= i < with_docks(w, all, ws).len() ==> (#[trigger] with_docks(w, all, ws)[i]).mon
                < w.desk.list.len(),
        w.desk.list.len() > 0 ==> forall|k: int|
            0 <= k < ws.len() && (#[trigger] ws[k]).dock is Some ==> taken(
                with_docks(w, all, ws),
                ws[k].id,
            ),
    decreases ws.len(),
{
    let now = with_docks(w, all, ws);
    if ws.len() == 0 {
        assert forall|i: int| 0 <= i < all.len() implies now.contains(#[trigger] all[i]) by {
            assert(now[i] == all[i]);
        }
    } else {
        let front = ws.drop_last();
        let before = with_docks(w, all, front);
        lemma_docks(w, all, front);
        let adds = ws.last().dock is Some && w.desk.list.len() > 0;
        if adds {
            let g = ws.last().float_geo;
            lemma_screen_place(w.desk.list, g.x as int, g.y as int);
            let it = dock_item(w, ws.last());
            lemma_claim(before, it);
            lemma_within(all, before, now);
            assert forall|i: int| 0 <= i < now.len() implies (#[trigger] now[i]).mon
                < w.desk.list.len() by {
                if now[i] != it {
                    let k = choose|k: int| 0 <= k < before.len() && before[k] == now[i];
                    assert(before[k].mon < w.desk.list.len());
                }
            }
        }
        if w.desk.list.len() > 0 {
            assert forall|k: int| 0 <= k < ws.len() && (#[trigger] ws[k]).dock is Some implies taken(
                now,
                ws[k].id,
            ) by {
                if k < front.len() {
                    assert(ws[k] == front[k]);
                    assert(taken(before, front[k].id));
                    if adds {
                        lemma_still_taken(before, now, ws[k].id);
                    }
                }
            }
        }
    }
}

proof fn lemma_of_screens(w: World, order: Seq<usize>)
    requires
        forall|k: int| 0 <= k < order.len() ==> (#[trigger] order[k]) < w.desk.list.len(),
    ensures
        single(of_screens(w, order)),
        forall|i: int|
            0 <= i < of_screens(w, order).len() ==> (#[trigger] of_screens(w, order)[i]).mon
                < w.desk.list.len(),
    decreases order.len(),
{
    if order.len() > 0 {
        let rest = order.drop_first();
        assert forall|k: int| 0 <= k < rest.len() implies (#[trigger] rest[k])
            < w.desk.list.len() by {
            assert(rest[k] == order[k + 1]);
        }
        lemma_of_screens(w, rest);
        let m = w.desk.list[order[0] as int];
        let all = of_screens(w, rest);
        lemma_tiles(w, all, order[0], tag_places(w, m));
        lemma_floats(
            w,
            with_tiles(w, all, order[0], tag_places(w, m)),
            order[0],
            m.tag,
            w.windows,
        );
    }
}

/// The items of all of some monitors are among those of more.
proof fn lemma_screen_claims(w: World, order: Seq<usize>, k: int)
    requires
        0 <= k < order.len(),
        forall|k: int| 0 <= k < order.len() ==> (#[trigger] order[k]) < w.desk.list.len(),
    ensures
        within(of_screens(w, order.skip(k)), of_screens(w, order)),
    decreases k,
{
    let now = of_screens(w, order);
    if k == 0 {
        assert(order.skip(0) =~= order);
        assert forall|i: int| 0 <= i < now.len() implies now.contains(#[trigger] now[i]) by {}
    } else {
        let rest = order.drop_first();
        assert forall|k: int| 0 <= k < rest.len() implies (#[trigger] rest[k])
            < w.desk.list.len() by {
            assert(rest[k] == order[k + 1]);
        }
        lemma_screen_claims(w, rest, k - 1);
        assert(rest.skip(k - 1) =~= order.skip(k));
        lemma_of_screens(w, rest);
        let m = w.desk.list[order[0] as int];
        let all = of_screens(w, rest);
        let mid = with_tiles(w, all, order[0], tag_places(w, m));
        lemma_tiles(w, all, order[0], tag_places(w, m));
        lemma_floats(w, mid, order[0], m.tag, w.windows);
        lemma_within(all, mid, now);
        lemma_within(of_screens(w, order.skip(k)), all, now);
    }
}

// --- the order of monitors ----------------------------------------------------------------

proof fn lemma_order_place(list: Seq<Screen>, order: Seq<usize>, z: i32)
    ensures
        0 <= order_place(list, order, z) <= order.len(),
    decreases order.len(),
{
    if order.len() > 0 {
        lemma_order_place(list, order.drop_first(), z);
    }
}

/// The order of monitors holds each of them once.
proof fn lemma_order_complete(list: Seq<Screen>, n: nat)
    requires
        n <= list.len(),
        list.len() <= usize::MAX,
    ensures
        stack_order(list, n).len() == n,
        forall|k: int| 0 <= k < n ==> (#[trigger] stack_order(list, n)[k]) < n,
        forall|i: int, j: int|
            0 <= i < j < n ==> (#[trigger] stack_order(list, n)[i]) != (#[trigger] stack_order(
                list,
                n,
            )[j]),
        forall|m: usize| m < n ==> #[trigger] stack_order(list, n).contains(m),
    decreases n,
{
    if n > 0 {
        let before = stack_order(list, (n - 1) as nat);
        lemma_order_complete(list, (n - 1) as nat);
        let z = list[n - 1].z;
        let p = order_place(list, before, z);
        lemma_order_place(list, before, z);
        let now = stack_order(list, n);
        assert forall|k: int| 0 <= k < n implies (#[trigger] now[k]) < n by {
            if k < p {
                assert(now[k] == before[k]);
            } else if k > p {
                assert(now[k] == before[k - 1]);
            }
        }
        assert forall|i: int, j: int| 0 <= i < j < n implies (#[trigger] now[i]) != (
        #[trigger] now[j]) by {
            let a = if i < p {
                i
            } else {
                i - 1
            };
            let b = if j < p {
                j
            } else {
                j - 1
            };
            if i != p {
                assert(now[i] == before[a]);
            }
            if j != p {
                assert(now[j] == before[b]);
            }
        }
        assert forall|m: usize| m < n implies #[trigger] now.contains(m) by {
            if m == n - 1 {
                assert(now[p] == m);
            } else {
                assert(before.contains(m));
                let k = choose|k: int| 0 <= k < before.len() && before[k] == m;
                assert(now[if k < p { k } else { k + 1 }] == m);
            }
        }
    }
}

// --- stacking -----------------------------------------------------------------------------

/// No item is below one before it.
pub open spec fn ascending(s: Seq<RenderItem>) -> bool {
    forall|i: int, j: int| 0 <= i < j < s.len() ==> !below(#[trigger] s[j], #[trigger] s[i])
}

proof fn lemma_stack_in(s: Seq<RenderItem>, it: RenderItem)
    ensures
        ascending(s) ==> ascending(stack_in(s, it)),
        stack_in(s, it).len() == s.len() + 1,
        within(s, stack_in(s, it)),
        stack_in(s, it).contains(it),
        forall|i: int|
            0 <= i < stack_in(s, it).len() ==> s.contains(#[trigger] stack_in(s, it)[i])
                || stack_in(s, it)[i] == it,
        single(s) && !taken(s, it.win) ==> single(stack_in(s, it)),
    decreases s.len(),
{
    let now = stack_in(s, it);
    if s.len() == 0 || !below(it, s.last()) {
        assert(now[s.len() as int] == it);
        assert forall|i: int| 0 <= i < s.len() implies now.contains(#[trigger] s[i]) by {
            assert(now[i] == s[i]);
        }
        assert forall|i: int| 0 <= i < now.len() implies s.contains(#[trigger] now[i]) || now[i]
            == it by {
            if i < s.len() {
                assert(now[i] == s[i]);
            }
        }
        if ascending(s) {
            assert forall|i: int, j: int| 0 <= i < j < now.len() implies !below(
                #[trigger] now[j],
                #[trigger] now[i],
            ) by {
                if j == s.len() {
                    assert(now[i] == s[i]);
                    assert(!below(s[s.len() - 1], s[i]) || i == s.len() - 1);
                }
            }
        }
    } else {
        let front = s.drop_last();
        let inner = stack_in(front, it);
        lemma_stack_in(front, it);
        let last = s.last();
        assert(now == inner.push(last));
        assert forall|i: int| 0 <= i < s.len() implies now.contains(#[trigger] s[i]) by {
            if i < front.len() {
                assert(front[i] == s[i]);
                assert(inner.contains(front[i]));
                let k = choose|k: int| 0 <= k < inner.len() && inner[k] == front[i];
                assert(now[k] == s[i]);
            } else {
                assert(now[inner.len() as int] == last);
            }
        }
        assert(now.contains(it)) by {
            let k = choose|k: int| 0 <= k < inner.len() && inner[k] == it;
            assert(now[k] == it);
        }
        assert forall|i: int| 0 <= i < now.len() implies s.contains(#[trigger] now[i]) || now[i]
            == it by {
            if i < inner.len() {
                assert(now[i] == inner[i]);
                if now[i] != it {
                    assert(front.contains(inner[i]));
                    let k = choose|k: int| 0 <= k < front.len() && front[k] == inner[i];
                    assert(s[k] == now[i]);
                }
            } else {
                assert(s[s.len() - 1] == last);
            }
        }
        if ascending(s) {
            assert(ascending(front)) by {
                assert forall|i: int, j: int| 0 <= i < j < front.len() implies !below(
                    #[trigger] front[j],
                    #[trigger] front[i],
                ) by {
                    assert(front[j] == s[j] && front[i] == s[i]);
                }
            }
            assert forall|i: int, j: int| 0 <= i < j < now.len() implies !below(
                #[trigger] now[j],
                #[trigger] now[i],
            ) by {
                if j < inner.len() {
                    assert(now[j] == inner[j] && now[i] == inner[i]);
                } else {
                    assert(now[i] == inner[i]);
                    if inner[i] != it {
                        assert(front.contains(inner[i]));
                        let k = choose|k: int| 0 <= k < front.len() && front[k] == inner[i];
                        assert(s[k] == inner[i] && s[s.len() - 1] == last);
                    }
                }
            }
        }
        if single(s) && !taken(s, it.win) {
            assert(single(front)) by {
                assert forall|i: int, j: int| 0 <= i < j < front.len() implies (
                #[trigger] front[i]).win != (#[trigger] front[j]).win by {
                    assert(front[j] == s[j] && front[i] == s[i]);
                }
            }
            assert(!taken(front, it.win)) by {
                assert forall|i: int| 0 <= i < front.len() implies (#[trigger] front[i]).win
                    != it.win by {
                    assert(front[i] == s[i]);
                }
            }
            assert forall|i: int, j: int| 0 <= i < j < now.len() implies (#[trigger] now[i]).win
                != (#[trigger] now[j]).win by {
                if j < inner.len() {
                    assert(now[j] == inner[j] && now[i] == inner[i]);
                } else {
                    assert(now[i] == inner[i]);
                    assert(s[s.len() - 1] == last);
                    if inner[i] != it {
                        assert(front.contains(inner[i]));
                        let k = choose|k: int| 0 <= k < front.len() && front[k] == inner[i];
                        assert(s[k] == inner[i]);
                    }
                }
            }
        }
    }
}

proof fn lemma_on_screen(all: Seq<RenderItem>, mi: usize)
    requires
        single(all),
    ensures
        ascending(on_screen(all, mi)),
        single(on_screen(all, mi)),
        within(on_screen(all, mi), all),
        forall|i: int| 0 <= i < on_screen(all, mi).len() ==> (#[trigger] on_screen(all, mi)[i]).mon == mi,
        forall|i: int|
            0 <= i < all.len() && (#[trigger] all[i]).mon == mi ==> on_screen(all, mi).contains(all[i]),
    decreases all.len(),
{
    if all.len() > 0 {
        let front = all.drop_last();
        let it = all.last();
        let before = on_screen(front, mi);
        let now = on_screen(all, mi);
        assert(single(front)) by {
            assert forall|i: int, j: int| 0 <= i < j < front.len() implies (#[trigger] front[i]).win
                != (#[trigger] front[j]).win by {
                assert(front[j] == all[j] && front[i] == all[i]);
            }
        }
        lemma_on_screen(front, mi);
        assert(within(front, all)) by {
            assert forall|i: int| 0 <= i < front.len() implies all.contains(#[trigger] front[i]) by {
                assert(all[i] == front[i]);
            }
        }
        lemma_within(before, front, all);
        assert(all[all.len() - 1] == it);
        if it.mon == mi {
            assert(!taken(before, it.win)) by {
                if taken(before, it.win) {
                    let i = choose|i: int| 0 <= i < before.len() && (#[trigger] before[i]).win == it.win;
                    assert(front.contains(before[i]));
                    let k = choose|k: int| 0 <= k < front.len() && front[k] == before[i];
                    assert(all[k] == before[i]);
                }
            }
            lemma_stack_in(before, it);
            assert forall|i: int| 0 <= i < now.len() implies all.contains(#[trigger] now[i])
                && now[i].mon == mi by {
                if now[i] != it {
                    assert(before.contains(now[i]));
                    let k = choose|k: int| 0 <= k < before.len() && before[k] == now[i];
                    assert(all.contains(before[k]));
                    assert(before[k].mon == mi);
                }
            }
        }
        assert forall|i: int| 0 <= i < all.len() && (#[trigger] all[i]).mon == mi implies now.contains(
            all[i],
        ) by {
            if i < front.len() {
                assert(front[i] == all[i]);
                assert(before.contains(front[i]));
                if it.mon == mi {
                    let k = choose|k: int| 0 <= k < before.len() && before[k] == all[i];
                    assert(now.contains(before[k]));
                }
            }
        }
    }
}

/// Whether, of two monitors, the one comes before the other, or is the same.
pub open spec fn comes_first(order: Seq<usize>, a: usize, b: usize) -> bool {
    exists|i: int, j: int|
        0 <= i <= j < order.len() && #[trigger] order[i] == a && #[trigger] order[j] == b
}

/// Items stand monitor by monitor, and on one monitor none is below one before it.
pub open spec fn stacked(s: Seq<RenderItem>, order: Seq<usize>) -> bool {
    forall|i: int, j: int|
        0 <= i < j < s.len() ==> {
            &&& comes_first(order, (#[trigger] s[i]).mon, (#[trigger] s[j]).mon)
            &&& s[i].mon == s[j].mon ==> !below(s[j], s[i])
        }
}

proof fn lemma_on_screens(all: Seq<RenderItem>, order: Seq<usize>)
    requires
        single(all),
        forall|i: int, j: int| 0 <= i < j < order.len() ==> (#[trigger] order[i]) != (#[trigger] order[j]),
    ensures
        single(on_screens(all, order)),
        within(on_screens(all, order), all),
        stacked(on_screens(all, order), order),
        forall|i: int|
            0 <= i < on_screens(all, order).len() ==> order.contains((#[trigger] on_screens(all, order)[i]).mon),
        forall|i: int|
            0 <= i < all.len() && order.contains((#[trigger] all[i]).mon) ==> on_screens(
                all,
                order,
            ).contains(all[i]),
    decreases order.len(),
{
    if order.len() > 0 {
        let front = order.drop_last();
        let mi = order.last();
        let a = on_screens(all, front);
        let b = on_screen(all, mi);
        let now = on_screens(all, order);
        assert forall|i: int, j: int| 0 <= i < j < front.len() implies (#[trigger] front[i]) != (
        #[trigger] front[j]) by {
            assert(front[i] == order[i] && front[j] == order[j]);
        }
        lemma_on_screens(all, front);
        lemma_on_screen(all, mi);
        assert forall|i: int| 0 <= i < now.len() implies all.contains(#[trigger] now[i])
            && order.contains(now[i].mon) by {
            if i < a.len() {
                assert(now[i] == a[i]);
                assert(front.contains(a[i].mon));
                let k = choose|k: int| 0 <= k < front.len() && front[k] == a[i].mon;
                assert(order[k] == a[i].mon);
            } else {
                assert(now[i] == b[i - a.len()]);
                assert(order[order.len() - 1] == mi);
            }
        }
        assert forall|i: int, j: int| 0 <= i < j < now.len() implies (#[trigger] now[i]).win != (
        #[trigger] now[j]).win && comes_first(order, now[i].mon, now[j].mon) && (now[i].mon
            == now[j].mon ==> !below(now[j], now[i])) by {
            if j < a.len() {
                assert(now[i] == a[i] && now[j] == a[j]);
                assert(comes_first(front, a[i].mon, a[j].mon));
                let (x, y) = choose|x: int, y: int|
                    0 <= x <= y < front.len() && #[trigger] front[x] == a[i].mon && #[trigger] front[y]
                        == a[j].mon;
                assert(order[x] == a[i].mon && order[y] == a[j].mon);
            } else {
                assert(now[j] == b[j - a.len()]);
                assert(order[order.len() - 1] == mi);
                if i < a.len() {
                    assert(now[i] == a[i]);
                    assert(front.contains(a[i].mon));
                    let k = choose|k: int| 0 <= k < front.len() && front[k] == a[i].mon;
                    assert(order[k] == a[i].mon);
                    assert(a[i].mon != mi);
                    assert(all.contains(a[i]) && all.contains(b[j - a.len()]));
                    let p = choose|p: int| 0 <= p < all.len() && all[p] == a[i];
                    let q = choose|q: int| 0 <= q < all.len() && all[q] == b[j - a.len()];
                    assert(p != q);
                    assert(all[p].win != all[q].win);
                } else {
                    assert(now[i] == b[i - a.len()]);
                }
            }
        }
        assert forall|i: int| 0 <= i < all.len() && order.contains((#[trigger] all[i]).mon) implies now.contains(
            all[i],
        ) by {
            let k = choose|k: int| 0 <= k < order.len() && order[k] == all[i].mon;
            if k < front.len() {
                assert(front[k] == all[i].mon);
                assert(a.contains(all[i]));
                let p = choose|p: int| 0 <= p < a.len() && a[p] == all[i];
                assert(now[p] == all[i]);
            } else {
                assert(b.contains(all[i]));
                let p = choose|p: int| 0 <= p < b.len() && b[p] == all[i];
                assert(now[a.len() + p] == all[i]);
            }
        }
    }
}

proof fn lemma_layout(w: World)
    requires
        w.desk.list.len() <= usize::MAX,
    ensures
        single(layout(w)),
        stacked(layout(w), stack_order(w.desk.list, w.desk.list.len())),
        within(layout(w), gathered(w)),
        within(gathered(w), layout(w)),
{
    let n = w.desk.list.len();
    let order = stack_order(w.desk.list, n);
    lemma_order_complete(w.desk.list, n);
    lemma_of_screens(w, order);
    lemma_docks(w, of_screens(w, order), w.windows);
    let all = gathered(w);
    lemma_on_screens(all, order);
    assert forall|i: int| 0 <= i < all.len() implies layout(w).contains(#[trigger] all[i]) by {
        assert(all[i].mon < n);
        assert(order.contains(all[i].mon));
    }
}

/// Every window is laid out on a monitor that there is.
pub proof fn law_on_monitors(w: World)
    requires
        w.desk.list.len() <= usize::MAX,
    ensures
        forall|i: int| 0 <= i < layout(w).len() ==> (#[trigger] layout(w)[i]).mon < w.desk.list.len(),
{
    let n = w.desk.list.len();
    let order = stack_order(w.desk.list, n);
    lemma_order_complete(w.desk.list, n);
    lemma_of_screens(w, order);
    lemma_docks(w, of_screens(w, order), w.windows);
    lemma_on_screens(gathered(w), order);
    assert forall|i: int| 0 <= i < layout(w).len() implies (#[trigger] layout(w)[i]).mon < n by {
        let k = choose|k: int| 0 <= k < order.len() && order[k] == layout(w)[i].mon;
        assert(order[k] < n);
    }
}

/// Every window is laid out at most once.
pub proof fn law_laid_out_once(w: World, i: int, j: int)
    requires
        w.desk.list.len() <= usize::MAX,
        0 <= i < j < layout(w).len(),
    ensures
        layout(w)[i].win != layout(w)[j].win,
{
    lemma_layout(w);
}

/// Windows are laid out from the lowest to the highest: those of a monitor before those
/// of the monitors above it, and on one monitor frames before floating windows before
/// bars before what fills the monitor, and in a layer the lower before the higher.
pub proof fn law_laid_out_in_order(w: World, i: int, j: int)
    requires
        w.desk.list.len() <= usize::MAX,
        0 <= i < j < layout(w).len(),
    ensures
        comes_first(
            stack_order(w.desk.list, w.desk.list.len()),
            layout(w)[i].mon,
            layout(w)[j].mon,
        ),
        layout(w)[i].mon == layout(w)[j].mon ==> !below(layout(w)[j], layout(w)[i]),
{
    lemma_layout(w);
}

/// Every window in a frame of a tag that some monitor shows is laid out, and so is every
/// floating window of such a tag, and every bar where there is a monitor.
pub proof fn law_all_laid_out(w: World, mi: usize, id: WinId)
    requires
        w.desk.list.len() <= usize::MAX,
        mi < w.desk.list.len(),
        ({
            let m = w.desk.list[mi as int];
            ||| exists|k: int|
                0 <= k < tag_places(w, m).len() && (#[trigger] tag_places(w, m)[k]).win == id && !apart(
                    w,
                    id,
                )
            ||| exists|k: int|
                0 <= k < w.windows.len() && (#[trigger] w.windows[k]).id == id && w.windows[k].tag
                    == m.tag && w.floats(w.windows[k])
            ||| exists|k: int|
                0 <= k < w.windows.len() && (#[trigger] w.windows[k]).id == id
                    && w.windows[k].dock is Some
        }),
    ensures
        taken(layout(w), id),
{
    let n = w.desk.list.len();
    let order = stack_order(w.desk.list, n);
    lemma_order_complete(w.desk.list, n);
    lemma_of_screens(w, order);
    lemma_layout(w);
    lemma_docks(w, of_screens(w, order), w.windows);
    let m = w.desk.list[mi as int];
    assert(order.contains(mi));
    let k = choose|k: int| 0 <= k < order.len() && order[k] == mi;
    let part = order.skip(k);
    let rest = part.drop_first();
    assert forall|i: int| 0 <= i < rest.len() implies (#[trigger] rest[i]) < n by {
        assert(rest[i] == order[k + 1 + i]);
    }
    lemma_of_screens(w, rest);
    let all = of_screens(w, rest);
    let mid = with_tiles(w, all, mi, tag_places(w, m));
    lemma_tiles(w, all, mi, tag_places(w, m));
    lemma_floats(w, mid, mi, m.tag, w.windows);
    let here = of_screens(w, part);
    assert(part[0] == mi);
    assert(here == with_floats(w, mid, mi, m.tag, w.windows));
    lemma_screen_claims(w, order, k);
    lemma_within(here, of_screens(w, order), gathered(w));
    lemma_within(here, gathered(w), layout(w));
    if taken(here, id) {
        lemma_still_taken(here, layout(w), id);
    } else {
        if taken(mid, id) {
            lemma_still_taken(mid, here, id);
        }
        assert(taken(gathered(w), id));
        lemma_still_taken(gathered(w), layout(w), id);
    }
}

/// Of monitors that show one tag, the highest gets its windows: one that is below
/// another with its tag gets none.
pub proof fn law_highest_wins(w: World, order: Seq<usize>, k: int)
    requires
        0 < k < order.len(),
        forall|k: int| 0 <= k < order.len() ==> (#[trigger] order[k]) < w.desk.list.len(),
        w.desk.list[order[k] as int].tag == w.desk.list[order[0] as int].tag,
    ensures
        of_screens(w, order) == of_screens(w, order.drop_first()),
{
    let rest = order.drop_first();
    assert forall|i: int| 0 <= i < rest.len() implies (#[trigger] rest[i]) < w.desk.list.len() by {
        assert(rest[i] == order[i + 1]);
    }
    let all = of_screens(w, rest);
    lemma_of_screens(w, rest);
    let mk = order[k];
    let tag = w.desk.list[mk as int].tag;
    let high = tag_places(w, w.desk.list[mk as int]);
    let low = tag_places(w, w.desk.list[order[0] as int]);
    let part = rest.skip(k - 1);
    assert(part[0] == mk);
    let above = part.drop_first();
    assert forall|i: int| 0 <= i < above.len() implies (#[trigger] above[i]) < w.desk.list.len() by {
        assert(above[i] == order[k + 1 + i]);
    }
    lemma_of_screens(w, above);
    let mid = with_tiles(w, of_screens(w, above), mk, high);
    lemma_tiles(w, of_screens(w, above), mk, high);
    lemma_floats(w, mid, mk, tag, w.windows);
    lemma_screen_claims(w, rest, k - 1);
    lemma_within(mid, of_screens(w, part), all);
    lemma_same_windows(w, w.desk.list[mk as int], w.desk.list[order[0] as int]);
    assert forall|i: int| 0 <= i < low.len() && !apart(w, (#[trigger] low[i]).win) implies taken(
        all,
        low[i].win,
    ) by {
        assert(low[i].win == high[i].win);
        assert(taken(mid, high[i].win));
        lemma_still_taken(mid, all, low[i].win);
    }
    lemma_no_new_tiles(w, all, order[0], low);
    assert forall|i: int|
        0 <= i < w.windows.len() && (#[trigger] w.windows[i]).tag == tag && w.floats(w.windows[i]) implies taken(
        all,
        w.windows[i].id,
    ) by {
        assert(taken(of_screens(w, part), w.windows[i].id));
        lemma_still_taken(of_screens(w, part), all, w.windows[i].id);
    }
    lemma_no_new_floats(w, all, order[0], tag, w.windows);
}

/// The windows in the frames of a tag are the same on every monitor that shows it.
proof fn lemma_same_windows(w: World, a: Screen, b: Screen)
    requires
        a.tag == b.tag,
    ensures
        tag_places(w, a).len() == tag_places(w, b).len(),
        forall|i: int|
            0 <= i < tag_places(w, a).len() ==> (#[trigger] tag_places(w, b)[i]).win == tag_places(w, a)[i].win,
{
    if let Some(t) = w.tree(a.tag) {
        let gap = tag_gap(w, a.tag) as int;
        law_place_all(t, inset(shrink(a.rect, a.pad), gap), gap);
        law_place_all(t, inset(shrink(b.rect, b.pad), gap), gap);
        assert forall|i: int| 0 <= i < tag_places(w, a).len() implies (#[trigger] tag_places(w, b)[i]).win
            == tag_places(w, a)[i].win by {
            assert(tag_places(w, a)[i].win == t.windows()[i]);
        }
    }
}

proof fn lemma_no_new_floats(w: World, all: Seq<RenderItem>, mi: usize, tag: u32, ws: Seq<Window>)
    requires
        forall|i: int|
            0 <= i < ws.len() && (#[trigger] ws[i]).tag == tag && w.floats(ws[i]) ==> taken(all, ws[i].id),
    ensures
        with_floats(w, all, mi, tag, ws) == all,
    decreases ws.len(),
{
    if ws.len() > 0 {
        let front = ws.drop_last();
        assert forall|i: int|
            0 <= i < front.len() && (#[trigger] front[i]).tag == tag && w.floats(front[i]) implies taken(
            all,
            front[i].id,
        ) by {
            assert(front[i] == ws[i]);
        }
        lemma_no_new_floats(w, all, mi, tag, front);
        assert(ws[ws.len() - 1] == ws.last());
    }
}

proof fn lemma_no_new_tiles(w: World, all: Seq<RenderItem>, mi: usize, ps: Seq<Placement>)
    requires
        forall|i: int| 0 <= i < ps.len() && !apart(w, (#[trigger] ps[i]).win) ==> taken(all, ps[i].win),
    ensures
        with_tiles(w, all, mi, ps) == all,
    decreases ps.len(),
{
    if ps.len() > 0 {
        let front = ps.drop_last();
        assert forall|i: int| 0 <= i < front.len() && !apart(w, (#[trigger] front[i]).win) implies taken(
            all,
            front[i].win,
        ) by {
            assert(front[i] == ps[i]);
        }
        lemma_no_new_tiles(w, all, mi, front);
        assert(ps[ps.len() - 1] == ps.last());
    }
}

// --- where each window goes -----------------------------------------------------------------

/// Whether an item is where its window belongs: a floating window at its own place, on a
/// monitor that shows its tag; a bar along the edge of its monitor that it is anchored to;
/// any other at a place that the frames of the tag of its monitor have for it. A window that
/// is to fill its monitor is in the highest layer.
pub open spec fn belongs(w: World, it: RenderItem) -> bool {
    let m = w.desk.list[it.mon as int];
    w.has_win(it.win) ==> {
        let x = w.win(it.win);
        ||| {
            &&& w.floats(x)
            &&& x.tag == m.tag
            &&& it.rect == x.float_geo
            &&& it.visible
            &&& it.seq == x.raise_seq
            &&& it.layer == (if x.fullscreen {
                Layer::Fullscreen
            } else {
                Layer::Floating
            })
        }
        ||| {
            &&& x.dock is Some
            &&& it.layer == Layer::Dock
            &&& it.visible
            &&& it.rect.x == m.rect.x && it.rect.w == m.rect.w
            &&& x.dock == Some(DockAnchor::Top) ==> it.rect.y == m.rect.y
            &&& x.dock == Some(DockAnchor::Bottom) && 1 <= m.rect.h && m.rect.y + m.rect.h <= i32::MAX
                ==> it.rect.y + it.rect.h == m.rect.y + m.rect.h
        }
        ||| {
            &&& !w.floats(x) && x.dock is None
            &&& it.layer == (if x.fullscreen {
                Layer::Fullscreen
            } else {
                Layer::Tiled
            })
            &&& exists|k: int|
                0 <= k < tag_places(w, m).len() && (#[trigger] tag_places(w, m)[k]).win == it.win && tag_places(
                    w,
                    m,
                )[k].rect == it.rect && tag_places(w, m)[k].visible == it.visible
        }
    }
}

/// Whether all items are where their windows belong.
pub open spec fn all_belong(w: World, all: Seq<RenderItem>) -> bool {
    forall|i: int| 0 <= i < all.len() ==> belongs(w, #[trigger] all[i])
}

proof fn lemma_this_one(w: World, k: int)
    requires
        w.wf(),
        0 <= k < w.windows.len(),
    ensures
        w.has_win(w.windows[k].id),
        w.win(w.windows[k].id) == w.windows[k],
{
    reveal(crate::state::in_number_order);
    crate::state::lemma_win_place(w.windows, w.windows[k].id);
    let p = crate::state::win_place(w.windows, w.windows[k].id);
    if p < k {
        assert(w.windows[p].id < w.windows[k].id);
    }
}

proof fn lemma_claim_belongs(w: World, all: Seq<RenderItem>, it: RenderItem)
    requires
        all_belong(w, all),
        belongs(w, it),
    ensures
        all_belong(w, claim(all, it)),
{
}

proof fn lemma_tiles_belong(w: World, all: Seq<RenderItem>, mi: usize, n: int)
    requires
        all_belong(w, all),
        mi < w.desk.list.len(),
        0 <= n <= tag_places(w, w.desk.list[mi as int]).len(),
    ensures
        all_belong(w, with_tiles(w, all, mi, tag_places(w, w.desk.list[mi as int]).take(n))),
    decreases n,
{
    if n > 0 {
        let ps = tag_places(w, w.desk.list[mi as int]);
        lemma_tiles_belong(w, all, mi, n - 1);
        assert(ps.take(n).drop_last() =~= ps.take(n - 1));
        let p = ps[n - 1];
        assert(ps.take(n).last() == p);
        if !apart(w, p.win) {
            assert(belongs(w, tile(w, mi, p)));
            lemma_claim_belongs(w, with_tiles(w, all, mi, ps.take(n - 1)), tile(w, mi, p));
        }
    }
}

proof fn lemma_floats_belong(w: World, all: Seq<RenderItem>, mi: usize, n: int)
    requires
        w.wf(),
        all_belong(w, all),
        mi < w.desk.list.len(),
        0 <= n <= w.windows.len(),
    ensures
        all_belong(w, with_floats(w, all, mi, w.desk.list[mi as int].tag, w.windows.take(n))),
    decreases n,
{
    if n > 0 {
        let tag = w.desk.list[mi as int].tag;
        lemma_floats_belong(w, all, mi, n - 1);
        assert(w.windows.take(n).drop_last() =~= w.windows.take(n - 1));
        let x = w.windows[n - 1];
        assert(w.windows.take(n).last() == x);
        lemma_this_one(w, n - 1);
        if x.tag == tag && w.floats(x) {
            assert(belongs(w, float_item(mi, x)));
            lemma_claim_belongs(w, with_floats(w, all, mi, tag, w.windows.take(n - 1)), float_item(mi, x));
        }
    }
}

proof fn lemma_docks_belong(w: World, all: Seq<RenderItem>, n: int)
    requires
        w.wf(),
        all_belong(w, all),
        w.desk.list.len() <= usize::MAX,
        0 <= n <= w.windows.len(),
    ensures
        all_belong(w, with_docks(w, all, w.windows.take(n))),
    decreases n,
{
    if n > 0 {
        lemma_docks_belong(w, all, n - 1);
        assert(w.windows.take(n).drop_last() =~= w.windows.take(n - 1));
        let x = w.windows[n - 1];
        assert(w.windows.take(n).last() == x);
        lemma_this_one(w, n - 1);
        if x.dock is Some && w.desk.list.len() > 0 {
            lemma_screen_place(w.desk.list, x.float_geo.x as int, x.float_geo.y as int);
            assert(belongs(w, dock_item(w, x)));
            lemma_claim_belongs(w, with_docks(w, all, w.windows.take(n - 1)), dock_item(w, x));
        }
    }
}

proof fn lemma_screens_belong(w: World, order: Seq<usize>)
    requires
        w.wf(),
        forall|k: int| 0 <= k < order.len() ==> (#[trigger] order[k]) < w.desk.list.len(),
    ensures
        all_belong(w, of_screens(w, order)),
    decreases order.len(),
{
    if order.len() > 0 {
        let rest = order.drop_first();
        assert forall|k: int| 0 <= k < rest.len() implies (#[trigger] rest[k]) < w.desk.list.len() by {
            assert(rest[k] == order[k + 1]);
        }
        lemma_screens_belong(w, rest);
        let mi = order[0];
        let ps = tag_places(w, w.desk.list[mi as int]);
        lemma_tiles_belong(w, of_screens(w, rest), mi, ps.len() as int);
        assert(ps.take(ps.len() as int) =~= ps);
        let mid = with_tiles(w, of_screens(w, rest), mi, ps);
        lemma_floats_belong(w, mid, mi, w.windows.len() as int);
        assert(w.windows.take(w.windows.len() as int) =~= w.windows);
    }
}

/// Every window is laid out where it belongs: a floating one at its own place on a monitor
/// that shows its tag, a bar along its edge of its monitor, any other where the frames of
/// its tag put it; one that fills its monitor over all others of it.
pub proof fn law_laid_out_where(w: World, i: int)
    requires
        w.wf(),
        w.desk.list.len() <= usize::MAX,
        0 <= i < layout(w).len(),
    ensures
        belongs(w, layout(w)[i]),
{
    let n = w.desk.list.len();
    let order = stack_order(w.desk.list, n);
    lemma_order_complete(w.desk.list, n);
    lemma_screens_belong(w, order);
    lemma_docks_belong(w, of_screens(w, order), w.windows.len() as int);
    assert(w.windows.take(w.windows.len() as int) =~= w.windows);
    lemma_layout(w);
    let all = gathered(w);
    assert(all.contains(layout(w)[i]));
    let k = choose|k: int| 0 <= k < all.len() && all[k] == layout(w)[i];
    assert(belongs(w, all[k]));
}

} // verus!
