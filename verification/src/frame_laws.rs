//! What every operation on a frame tree keeps, and what one undoes of another.

use vstd::prelude::*;
use vstd::multiset::Multiset;
use crate::double::Double;
use crate::frame::{Dir, LayoutMode, Orientation, SplitDir, WinId};
use crate::monitor::Rect;
use crate::ratio::{law_share_fits, Ratio};
use crate::tree::{
    append_to_leaf, cut, cycle_leaf, distance, lies_towards, nearest_leaf, next_layout,
    place_of, room, split_leaf, Tree,
};

verus! {

/// How often each window is in the tree.
pub open spec fn population(t: Tree) -> Multiset<WinId> {
    t.windows().to_multiset()
}

proof fn lemma_population_split(a: Seq<WinId>, b: Seq<WinId>)
    ensures
        (a + b).to_multiset() == a.to_multiset().add(b.to_multiset()),
{
    vstd::seq_lib::lemma_multiset_commutative(a, b);
}

proof fn lemma_population_insert(v: Seq<WinId>, at: int, w: WinId)
    requires
        0 <= at <= v.len(),
    ensures
        v.insert(at, w).to_multiset() == v.to_multiset().insert(w),
{
    broadcast use vstd::multiset::group_multiset_axioms;

    let more = v.insert(at, w);
    assert(more.remove(at) =~= v);
    vstd::seq_lib::to_multiset_remove(more, at);
    more.to_multiset_ensures();
    assert(more[at] == w);
    assert(more.contains(w));
    assert(more.to_multiset() =~= v.to_multiset().insert(w));
}

proof fn lemma_contains_concat(a: Seq<WinId>, b: Seq<WinId>, w: WinId)
    ensures
        (a + b).contains(w) <==> a.contains(w) || b.contains(w),
{
    if a.contains(w) {
        let i = choose|i: int| 0 <= i < a.len() && a[i] == w;
        assert((a + b)[i] == w);
    }
    if b.contains(w) {
        let i = choose|i: int| 0 <= i < b.len() && b[i] == w;
        assert((a + b)[a.len() + i] == w);
    }
}

proof fn lemma_place_of(v: Seq<WinId>, w: WinId)
    ensures
        0 <= place_of(v, w) <= v.len(),
        place_of(v, w) < v.len() <==> v.contains(w),
        place_of(v, w) < v.len() ==> v[place_of(v, w)] == w,
        forall|j: int| 0 <= j < place_of(v, w) ==> #[trigger] v[j] != w,
    decreases v.len(),
{
    if v.len() > 0 && v[0] != w {
        lemma_place_of(v.drop_first(), w);
        if v.contains(w) {
            let i = choose|i: int| 0 <= i < v.len() && v[i] == w;
            assert(v.drop_first()[i - 1] == w);
        }
        assert forall|j: int| 0 <= j < place_of(v, w) implies #[trigger] v[j] != w by {
            if j > 0 {
                assert(v.drop_first()[j - 1] == v[j]);
            }
        }
    }
}

/// Inserting a window adds it once, focuses it and keeps the frames.
pub proof fn law_insert(t: Tree, w: WinId)
    requires
        t.wf(),
    ensures
        population(t.insert(w)) == population(t).insert(w),
        t.insert(w).focused_window() == Some(w),
        t.insert(w).leaves() == t.leaves(),
        t.insert(w).focused_index() == t.focused_index(),
        t.insert(w).wf(),
    decreases t,
{
    broadcast use vstd::multiset::group_multiset_axioms;

    match t {
        Tree::Leaf { windows, selected, layout } => {
            let at = if selected < windows.len() {
                selected + 1
            } else {
                windows.len() as int
            };
            lemma_population_insert(windows, at, w);
        },
        Tree::Split { selection, first, second, .. } => {
            lemma_population_split(first.windows(), second.windows());
            if selection == 0 {
                law_insert(*first, w);
                lemma_population_split(first.insert(w).windows(), second.windows());
            } else {
                law_insert(*second, w);
                lemma_population_split(first.windows(), second.insert(w).windows());
            }
            assert(population(t.insert(w)) =~= population(t).insert(w));
        },
    }
}

/// Removing a window takes out one occurrence, where there is one, and keeps the
/// frames and the leaf in focus.
pub proof fn law_remove(t: Tree, w: WinId)
    requires
        t.wf(),
    ensures
        population(t.remove(w)) == population(t).remove(w),
        t.remove(w).leaves() == t.leaves(),
        t.remove(w).focused_index() == t.focused_index(),
        t.remove(w).wf(),
        !t.windows().contains(w) ==> t.remove(w) == t,
    decreases t,
{
    broadcast use vstd::multiset::group_multiset_axioms;

    match t {
        Tree::Leaf { windows, selected, layout } => {
            lemma_place_of(windows, w);
            if windows.contains(w) {
                vstd::seq_lib::to_multiset_remove(windows, place_of(windows, w));
            } else {
                windows.to_multiset_ensures();
                assert(population(t).remove(w) =~= population(t));
            }
        },
        Tree::Split { first, second, .. } => {
            lemma_contains_concat(first.windows(), second.windows(), w);
            lemma_population_split(first.windows(), second.windows());
            first.windows().to_multiset_ensures();
            if first.windows().contains(w) {
                law_remove(*first, w);
                lemma_population_split(first.remove(w).windows(), second.windows());
            } else {
                law_remove(*second, w);
                lemma_population_split(first.windows(), second.remove(w).windows());
            }
            assert(population(t.remove(w)) =~= population(t).remove(w));
        },
    }
}

/// Removing a window that was just inserted, where it was not there before, leaves
/// the windows as they were.
pub proof fn law_insert_then_remove(t: Tree, w: WinId)
    requires
        t.wf(),
        !t.windows().contains(w),
    ensures
        t.insert(w).remove(w).windows() == t.windows(),
    decreases t,
{
    match t {
        Tree::Leaf { windows, selected, layout } => {
            let at = if selected < windows.len() {
                selected + 1
            } else {
                windows.len() as int
            };
            let more = windows.insert(at, w);
            lemma_place_of(more, w);
            assert(more[at] == w);
            assert(more.contains(w));
            let p = place_of(more, w);
            if p != at {
                assert(windows[if p < at { p } else { p - 1 }] == w);
            }
            assert(more.remove(at) =~= windows);
        },
        Tree::Split { selection, first, second, .. } => {
            lemma_contains_concat(first.windows(), second.windows(), w);
            if selection == 0 {
                law_insert_then_remove(*first, w);
                law_insert(*first, w);
                lemma_focus_held(first.insert(w));
            } else {
                law_insert_then_remove(*second, w);
            }
        },
    }
}

/// The focused window is one of the tree's.
proof fn lemma_focus_held(t: Tree)
    requires
        t.wf(),
    ensures
        t.focused_window() is Some ==> t.windows().contains(t.focused_window()->0),
    decreases t,
{
    match t {
        Tree::Leaf { .. } => {},
        Tree::Split { selection, first, second, .. } => {
            if t.focused_window() is Some {
                lemma_contains_concat(first.windows(), second.windows(), t.focused_window()->0);
                if selection == 0 {
                    lemma_focus_held(*first);
                } else {
                    lemma_focus_held(*second);
                }
            }
        },
    }
}

/// Focusing a window that is there makes it the focused one and moves nothing.
pub proof fn law_focus_window(t: Tree, w: WinId)
    requires
        t.wf(),
    ensures
        t.windows().contains(w) ==> t.focus_on(w).focused_window() == Some(w),
        !t.windows().contains(w) ==> t.focus_on(w) == t,
        t.focus_on(w).windows() == t.windows(),
        t.focus_on(w).leaves() == t.leaves(),
        t.focus_on(w).wf(),
    decreases t,
{
    match t {
        Tree::Leaf { windows, .. } => {
            lemma_place_of(windows, w);
        },
        Tree::Split { first, second, .. } => {
            lemma_contains_concat(first.windows(), second.windows(), w);
            law_focus_window(*first, w);
            law_focus_window(*second, w);
        },
    }
}

/// Leading the focus to a leaf puts it there and moves nothing.
pub proof fn law_focus_nth(t: Tree, n: int)
    requires
        t.wf(),
        0 <= n < t.leaves(),
    ensures
        t.focus_nth(n).focused_index() == n,
        t.focus_nth(n).windows() == t.windows(),
        t.focus_nth(n).leaves() == t.leaves(),
        t.focus_nth(n).wf(),
    decreases t,
{
    match t {
        Tree::Leaf { .. } => {},
        Tree::Split { first, second, .. } => {
            if n < first.leaves() {
                law_focus_nth(*first, n);
            } else {
                law_focus_nth(*second, n - first.leaves());
            }
        },
    }
}

/// Splitting keeps every window and the window in focus; towards a side it adds one
/// frame, an empty one.
pub proof fn law_split(t: Tree, dir: SplitDir, fraction: Ratio)
    requires
        t.wf(),
        fraction.wf(),
    ensures
        population(t.map_focused(|l: Tree| split_leaf(l, dir, fraction))) == population(t),
        t.map_focused(|l: Tree| split_leaf(l, dir, fraction)).focused_window() == t.focused_window(),
        dir != SplitDir::Explode ==> t.map_focused(
            |l: Tree| split_leaf(l, dir, fraction),
        ).leaves() == t.leaves() + 1,
        dir != SplitDir::Explode ==> t.map_focused(
            |l: Tree| split_leaf(l, dir, fraction),
        ).windows() == t.windows(),
    decreases t,
{
    broadcast use vstd::multiset::group_multiset_axioms;

    let f = |l: Tree| split_leaf(l, dir, fraction);
    match t {
        Tree::Leaf { windows, selected, layout } => {
            reveal_with_fuel(Tree::windows, 2);
            reveal_with_fuel(Tree::leaves, 2);
            reveal_with_fuel(Tree::focused_leaf, 2);
            if dir == SplitDir::Explode {
                if windows.len() >= 2 {
                    let kept = seq![windows[selected]];
                    let moved = windows.remove(selected);
                    lemma_population_split(kept, moved);
                    vstd::seq_lib::to_multiset_remove(windows, selected);
                    windows.to_multiset_ensures();
                    assert(windows.contains(windows[selected]));
                    assert(kept =~= Seq::<WinId>::empty().push(windows[selected]));
                    Seq::<WinId>::empty().to_multiset_ensures();
                    assert(Seq::<WinId>::empty().to_multiset() =~= Multiset::empty());
                    assert(kept.to_multiset() =~= Multiset::singleton(windows[selected]));
                    assert((kept + moved).to_multiset() =~= windows.to_multiset());
                }
            } else {
                assert(Seq::<WinId>::empty() + windows =~= windows);
                assert(windows + Seq::<WinId>::empty() =~= windows);
            }
        },
        Tree::Split { selection, first, second, .. } => {
            lemma_population_split(first.windows(), second.windows());
            if selection == 0 {
                law_split(*first, dir, fraction);
                lemma_population_split(first.map_focused(f).windows(), second.windows());
            } else {
                law_split(*second, dir, fraction);
                lemma_population_split(first.windows(), second.map_focused(f).windows());
            }
        },
    }
}

proof fn lemma_append(t: Tree, more: Seq<WinId>)
    requires
        t.wf(),
    ensures
        population(t.map_focused(|l: Tree| append_to_leaf(l, more))) == population(t).add(
            more.to_multiset(),
        ),
        t.map_focused(|l: Tree| append_to_leaf(l, more)).leaves() == t.leaves(),
    decreases t,
{
    broadcast use vstd::multiset::group_multiset_axioms;

    let f = |l: Tree| append_to_leaf(l, more);
    match t {
        Tree::Leaf { windows, .. } => {
            lemma_population_split(windows, more);
        },
        Tree::Split { selection, first, second, .. } => {
            lemma_population_split(first.windows(), second.windows());
            if selection == 0 {
                lemma_append(*first, more);
                lemma_population_split(first.map_focused(f).windows(), second.windows());
            } else {
                lemma_append(*second, more);
                lemma_population_split(first.windows(), second.map_focused(f).windows());
            }
            assert(population(t.map_focused(f)) =~= population(t).add(more.to_multiset()));
        },
    }
}

proof fn lemma_leaves_positive(t: Tree)
    ensures
        t.leaves() >= 1,
        t.leaves() == 1 <==> t is Leaf,
    decreases t,
{
    match t {
        Tree::Leaf { .. } => {},
        Tree::Split { first, second, .. } => {
            lemma_leaves_positive(*first);
            lemma_leaves_positive(*second);
        },
    }
}

/// Removing a frame keeps every window and takes away one frame, but never the last.
pub proof fn law_remove_frame(t: Tree)
    requires
        t.wf(),
    ensures
        population(t.remove_frame()) == population(t),
        t.leaves() > 1 ==> t.remove_frame().leaves() == t.leaves() - 1,
        t.leaves() == 1 ==> t.remove_frame() == t,
    decreases t,
{
    broadcast use vstd::multiset::group_multiset_axioms;

    lemma_leaves_positive(t);
    match t {
        Tree::Leaf { .. } => {},
        Tree::Split { selection, first, second, .. } => {
            lemma_population_split(first.windows(), second.windows());
            lemma_leaves_positive(*first);
            lemma_leaves_positive(*second);
            if selection == 0 {
                if *first is Leaf {
                    lemma_append(*second, first.windows());
                } else {
                    law_remove_frame(*first);
                    lemma_population_split(first.remove_frame().windows(), second.windows());
                }
            } else {
                if *second is Leaf {
                    lemma_append(*first, second.windows());
                } else {
                    law_remove_frame(*second);
                    lemma_population_split(first.windows(), second.remove_frame().windows());
                }
            }
            assert(population(t.remove_frame()) =~= population(t));
        },
    }
}

/// Moving the selection on and back again leaves the tree as it was.
pub proof fn law_cycle_back(t: Tree, delta: int)
    requires
        t.wf(),
    ensures
        t.map_focused(|l: Tree| cycle_leaf(l, delta)).map_focused(|l: Tree| cycle_leaf(l, -delta)) == t,
        t.map_focused(|l: Tree| cycle_leaf(l, delta)).windows() == t.windows(),
    decreases t,
{
    match t {
        Tree::Leaf { windows, selected, .. } => {
            if windows.len() > 0 {
                let n = windows.len() as int;
                let k = (selected + delta) / n;
                let m = (selected + delta) % n;
                assert(selected + delta == k * n + m) by (nonlinear_arith)
                    requires
                        k == (selected + delta) / n,
                        m == (selected + delta) % n,
                        n > 0,
                ;
                assert(m - delta == (-k) * n + selected) by (nonlinear_arith)
                    requires
                        selected + delta == k * n + m,
                ;
                vstd::arithmetic::div_mod::lemma_fundamental_div_mod_converse(m - delta, n, -k, selected);
            }
        },
        Tree::Split { selection, first, second, .. } => {
            if selection == 0 {
                law_cycle_back(*first, delta);
            } else {
                law_cycle_back(*second, delta);
            }
        },
    }
}

/// Four steps through the arrangements lead back to the first.
pub proof fn law_layout_round(l: LayoutMode)
    ensures
        next_layout(next_layout(next_layout(next_layout(l)))) == l,
        next_layout(l) != l,
{
}

/// Shifting the focused window keeps every window and leaves it focused.
pub proof fn law_shift(t: Tree, n: int)
    requires
        t.wf(),
        t.focused_window() is Some,
        0 <= n < t.leaves(),
    ensures
        ({
            let w = t.focused_window()->0;
            let u = t.remove(w).focus_nth(n).insert(w);
            &&& population(u) == population(t)
            &&& u.focused_window() == Some(w)
            &&& u.focused_index() == n
            &&& u.leaves() == t.leaves()
        }),
{
    broadcast use vstd::multiset::group_multiset_axioms;

    let w = t.focused_window()->0;
    lemma_focus_held(t);
    law_remove(t, w);
    law_focus_nth(t.remove(w), n);
    law_insert(t.remove(w).focus_nth(n), w);
    t.windows().to_multiset_ensures();
    assert(population(t).remove(w).insert(w) =~= population(t));
}

/// Resizing moves no window and no focus.
pub proof fn law_resize(t: Tree, dir: Dir, delta: Double)
    requires
        t.wf(),
        t.resize(dir, delta) is Some,
    ensures
        t.resize(dir, delta)->0.windows() == t.windows(),
        t.resize(dir, delta)->0.leaves() == t.leaves(),
        t.resize(dir, delta)->0.focused_window() == t.focused_window(),
        t.resize(dir, delta)->0.focused_index() == t.focused_index(),
    decreases t,
{
    match t {
        Tree::Leaf { .. } => {},
        Tree::Split { selection, first, second, .. } => {
            if selection == 0 {
                if first.resize(dir, delta) is Some {
                    law_resize(*first, dir, delta);
                }
            } else {
                if second.resize(dir, delta) is Some {
                    law_resize(*second, dir, delta);
                }
            }
        },
    }
}

/// Fetching a window of the tree focuses it and loses none. From another leaf it comes
/// into the focused one, which stays where it is.
pub proof fn law_fetch(t: Tree, w: WinId)
    requires
        t.wf(),
    ensures
        t.fetch(w).wf(),
        population(t.fetch(w)) == population(t),
        t.fetch(w).leaves() == t.leaves(),
        t.windows().contains(w) ==> t.fetch(w).focused_window() == Some(w),
        t.windows().contains(w) && !t.focused_leaf().windows().contains(w) ==> t.fetch(
            w,
        ).focused_index() == t.focused_index(),
        !t.windows().contains(w) ==> t.fetch(w) == t,
{
    broadcast use vstd::multiset::group_multiset_axioms;

    law_remove(t, w);
    law_insert(t.remove(w), w);
    law_focus_window(t, w);
    if t.windows().contains(w) {
        t.windows().to_multiset_ensures();
        assert(population(t).contains(w));
        assert(population(t).remove(w).insert(w) =~= population(t));
    }
}

/// Every window of the tree is placed, once for each time that it is there, in order.
pub proof fn law_place_all(t: Tree, area: Rect, gap: int)
    ensures
        t.place(area, gap).len() == t.windows().len(),
        forall|i: int|
            0 <= i < t.windows().len() ==> (#[trigger] t.place(area, gap)[i]).win == t.windows()[i],
    decreases t,
{
    match t {
        Tree::Leaf { .. } => {},
        Tree::Split { orient, ratio, selection, first, second } => {
            let (x, y) = cut(area, orient, ratio, gap);
            law_place_all(*first, x, gap);
            law_place_all(*second, y, gap);
            let a = first.place(x, gap);
            let b = second.place(y, gap);
            assert forall|i: int| 0 <= i < t.windows().len() implies (#[trigger] t.place(area, gap)[i]).win
                == t.windows()[i] by {
                if i < a.len() {
                    assert((a + b)[i] == a[i]);
                } else {
                    assert((a + b)[i] == b[i - a.len()]);
                }
            }
        },
    }
}

/// The focused window is placed in sight.
pub proof fn law_focus_in_sight(t: Tree, area: Rect, gap: int)
    requires
        t.wf(),
        t.focused_window() is Some,
    ensures
        exists|i: int|
            0 <= i < t.place(area, gap).len() && (#[trigger] t.place(area, gap)[i]).win
                == t.focused_window()->0 && t.place(area, gap)[i].visible,
    decreases t,
{
    match t {
        Tree::Leaf { selected, .. } => {
            let p = t.place(area, gap)[selected];
            assert(p.visible);
        },
        Tree::Split { orient, ratio, selection, first, second } => {
            let (x, y) = cut(area, orient, ratio, gap);
            let a = first.place(x, gap);
            let b = second.place(y, gap);
            if selection == 0 {
                law_focus_in_sight(*first, x, gap);
                let i = choose|i: int|
                    0 <= i < a.len() && (#[trigger] a[i]).win == t.focused_window()->0 && a[i].visible;
                assert(t.place(area, gap)[i] == a[i]);
            } else {
                law_focus_in_sight(*second, y, gap);
                let i = choose|i: int|
                    0 <= i < b.len() && (#[trigger] b[i]).win == t.focused_window()->0 && b[i].visible;
                assert(t.place(area, gap)[a.len() + i] == b[i]);
            }
        },
    }
}

/// The two parts of a split and the gap between them make up the area.
pub proof fn law_cut_covers(area: Rect, orient: Orientation, ratio: Ratio, gap: int)
    requires
        0 <= gap,
        orient == Orientation::Horizontal ==> gap <= area.w && area.x + area.w <= i32::MAX,
        orient == Orientation::Vertical ==> gap <= area.h && area.y + area.h <= i32::MAX,
        ratio.wf(),
    ensures
        ({
            let (a, b) = cut(area, orient, ratio, gap);
            match orient {
                Orientation::Horizontal => {
                    &&& a.x == area.x
                    &&& b.x == a.x + a.w + gap
                    &&& a.w + gap + b.w == area.w
                    &&& a.h == area.h && b.h == area.h
                    &&& a.y == area.y && b.y == area.y
                },
                Orientation::Vertical => {
                    &&& a.y == area.y
                    &&& b.y == a.y + a.h + gap
                    &&& a.h + gap + b.h == area.h
                    &&& a.w == area.w && b.w == area.w
                    &&& a.x == area.x && b.x == area.x
                },
            }
        }),
{
    law_share_fits(room(area.w as int, gap) as nat, ratio);
    law_share_fits(room(area.h as int, gap) as nat, ratio);
}

/// The neighbour in a direction lies there and is not the leaf itself, and none that
/// lies there is nearer, nor as near and earlier.
pub proof fn law_nearest(rects: Seq<Rect>, from: int, dir: Dir, n: nat)
    ensures
        nearest_leaf(rects, from, dir, n) is Some ==> {
            let i = nearest_leaf(rects, from, dir, n)->0;
            &&& 0 <= i < n
            &&& i != from
            &&& lies_towards(rects[from], rects[i], dir)
            &&& forall|j: int|
                0 <= j < n && j != from && lies_towards(rects[from], #[trigger] rects[j], dir)
                    ==> distance(rects[from], rects[i]) <= distance(rects[from], rects[j])
            &&& forall|j: int|
                0 <= j < i && j != from && lies_towards(rects[from], #[trigger] rects[j], dir)
                    ==> distance(rects[from], rects[i]) < distance(rects[from], rects[j])
        },
        nearest_leaf(rects, from, dir, n) is None ==> forall|j: int|
            0 <= j < n && j != from ==> !lies_towards(rects[from], #[trigger] rects[j], dir),
    decreases n,
{
    if n > 0 {
        law_nearest(rects, from, dir, (n - 1) as nat);
    }
}

} // verus!
