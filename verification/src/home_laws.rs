//! No window is ever lost: whatever is done, each one stands in a frame of its tag.

use vstd::prelude::*;
use crate::attr::{set_client, set_monitor};
use crate::cmd_bar::{add_executor, bar, bar_add, bar_cleared, bar_create, bar_destroyed};
use crate::cmd_frame::{
    cycle, cycle_all, cycle_frame, cycle_layout, focus, focus_frame, focus_towards, frame_at, frame_on,
    remove, resize, resize_step, resized, set_layout, shift, shift_towards, split_frame, split_share,
    window_on,
};
use crate::cmd_layout::{claimed, insert_all, load_layout, settled, strays, win_ids};
use crate::cmd_wallpaper::{set_backdrops, wallpaper, without_backdrops, Wall};
use crate::cmd_window::{
    adopt, close, dock, first_or_toggle, float_at, floating, floating_geometry, focus_leaf, focus_screen,
    focus_win, hook_three, id_text, move_to, restack, shift_to_monitor, stepped, transfer, use_index, use_previous, use_tag,
    window_mode,
};
use crate::double::{clamped, double_text, nudged, Double};
use crate::events::{fresh_window, pointer_entered, text_or_empty, window_added, window_closed, window_titled};
use crate::frame::{dir_named, layout_named, split_named, Dir, LayoutMode, SplitDir, WinId};
use crate::frame_laws::{
    law_fetch, law_focus_window, law_insert, law_place_all, law_remove, law_remove_frame, law_split,
    population,
};
use crate::gestures::{gesturebind, gestureunbind};
use crate::ipc::{
    answered, begin, begin_asking, begin_keybind, begin_outer, dispatched, lemma_step_lighter, resumed, stack_weight, step,
    turn_weight, Ask, Coat, Step, Told, Turn,
};
use crate::keys::mousebind;
use crate::launching::{apps_opened, launcher_closed};
use crate::layout::{inset, layout, tag_gap, tag_places, taken, RenderItem};
use crate::layout_laws::law_all_laid_out;
use crate::manage::{
    all_readied, first_half, items_told, keyboard, let_go, managed, op_geo, ops_started, readied,
    Focus,
};
use crate::monitor::{find_screen, rect_text, selector_text, shrink, Rect, TagId};
use crate::number::{show, unsigned};
use crate::ratio::{lemma_rest_in_range, rest_of_one, Ratio, HALF};
use crate::reply::{is_yes, steps, switched, tag_text};
use crate::route::{
    at_once, attr_command, desk_command, frame_command, list_command, other_command, window_command,
};
use crate::rules::{placed_by_rules, reapply_rules, rule, ruled, verdict, DockAnchor};
use crate::sexpr::{tokens, tree_at, tree_text};
use crate::start::fresh_world;
use crate::state::{
    bump, in_number_order, lemma_win_place, sound_trees, win_place, Globals, Window, World,
};
use crate::table::{drop_key, key_place, law_put, lemma_key_place, value_of};
use crate::text::{fields, position, Class, Text};
use crate::tree::{
    advance_leaf, append_to_leaf, arrange_leaf, bare_leaf, cycle_leaf, split_leaf, Tree,
};
use crate::wallpaper::Backdrop;

verus! {

// --- trees --------------------------------------------------------------------------------

/// Whether every window of a tree is in another one too, which is sound.
pub open spec fn holds_all(t: Tree, u: Tree) -> bool {
    &&& u.wf()
    &&& forall|id: WinId| #[trigger] t.windows().contains(id) ==> u.windows().contains(id)
}

/// A tree in which each window is as often as in another holds all of them.
proof fn lemma_same_population(t: Tree, u: Tree)
    requires
        u.wf(),
        population(u) == population(t),
    ensures
        holds_all(t, u),
{
    t.windows().to_multiset_ensures();
    u.windows().to_multiset_ensures();
    assert forall|id: WinId| #[trigger] t.windows().contains(id) implies u.windows().contains(id) by {
        assert(population(t).contains(id));
        assert(population(u).contains(id));
    }
}

/// A tree with a window inserted holds it, and all that it held.
proof fn lemma_insert_holds(t: Tree, id: WinId)
    requires
        t.wf(),
    ensures
        holds_all(t, t.insert(id)),
        t.insert(id).windows().contains(id),
{
    broadcast use vstd::multiset::group_multiset_axioms;

    law_insert(t, id);
    let u = t.insert(id);
    t.windows().to_multiset_ensures();
    u.windows().to_multiset_ensures();
    assert(population(u).count(id) > 0);
    assert(population(u).contains(id));
    assert forall|x: WinId| #[trigger] t.windows().contains(x) implies u.windows().contains(x) by {
        assert(population(t).contains(x));
        assert(population(u).count(x) > 0);
        assert(population(u).contains(x));
    }
}

/// A tree without a window holds all others.
proof fn lemma_remove_holds(t: Tree, id: WinId, other: WinId)
    requires
        t.wf(),
        other != id,
        t.windows().contains(other),
    ensures
        t.remove(id).windows().contains(other),
{
    broadcast use vstd::multiset::group_multiset_axioms;

    law_remove(t, id);
    let u = t.remove(id);
    t.windows().to_multiset_ensures();
    u.windows().to_multiset_ensures();
    assert(population(t).contains(other));
    assert(population(u).count(other) > 0);
    assert(population(u).contains(other));
}

/// Leading the focus anywhere moves nothing.
proof fn lemma_focus_nth(t: Tree, n: int)
    requires
        t.wf(),
    ensures
        t.focus_nth(n).wf(),
        t.focus_nth(n).windows() == t.windows(),
    decreases t,
{
    match t {
        Tree::Leaf { .. } => {},
        Tree::Split { first, second, .. } => {
            if n < first.leaves() {
                lemma_focus_nth(*first, n);
            } else {
                lemma_focus_nth(*second, n - first.leaves());
            }
        },
    }
}

/// A change of the focused leaf that keeps it sound keeps the tree so.
proof fn lemma_map_focused(t: Tree, f: spec_fn(Tree) -> Tree)
    requires
        t.wf(),
        forall|l: Tree| l is Leaf && l.wf() ==> (#[trigger] f(l)).wf(),
    ensures
        t.map_focused(f).wf(),
    decreases t,
{
    match t {
        Tree::Leaf { .. } => {
            assert(f(t).wf());
        },
        Tree::Split { selection, first, second, .. } => {
            if selection == 0 {
                lemma_map_focused(*first, f);
            } else {
                lemma_map_focused(*second, f);
            }
        },
    }
}

/// A change of the focused leaf that moves nothing in it moves nothing in the tree.
proof fn lemma_map_in_place(t: Tree, f: spec_fn(Tree) -> Tree)
    requires
        t.wf(),
        forall|l: Tree| l is Leaf && l.wf() ==> (#[trigger] f(l)).wf() && f(l).windows() == l.windows(),
    ensures
        t.map_focused(f).wf(),
        t.map_focused(f).windows() == t.windows(),
    decreases t,
{
    match t {
        Tree::Leaf { .. } => {
            assert(f(t).wf());
        },
        Tree::Split { selection, first, second, .. } => {
            if selection == 0 {
                lemma_map_in_place(*first, f);
            } else {
                lemma_map_in_place(*second, f);
            }
        },
    }
}

/// What a share leaves of one is a share.
proof fn lemma_rest_wf(r: Ratio)
    requires
        r.wf(),
    ensures
        rest_of_one(r).wf(),
{
    lemma_rest_in_range((crate::ratio::ONE - r.units) as nat);
}

/// Splitting the focused leaf keeps the tree sound, and every window.
proof fn lemma_split_holds(t: Tree, dir: SplitDir, fraction: Ratio)
    requires
        t.wf(),
        fraction.wf(),
    ensures
        holds_all(t, t.map_focused(|l: Tree| split_leaf(l, dir, fraction))),
{
    let f = |l: Tree| split_leaf(l, dir, fraction);
    lemma_rest_wf(fraction);
    assert forall|l: Tree| l is Leaf && l.wf() implies (#[trigger] f(l)).wf() by {
        reveal_with_fuel(Tree::wf, 3);
        assert(Ratio { units: HALF }.wf());
    }
    lemma_map_focused(t, f);
    law_split(t, dir, fraction);
    lemma_same_population(t, t.map_focused(f));
}

/// Removing a frame keeps the tree sound, and every window.
proof fn lemma_remove_frame_wf(t: Tree)
    requires
        t.wf(),
    ensures
        t.remove_frame().wf(),
    decreases t,
{
    match t {
        Tree::Leaf { .. } => {},
        Tree::Split { selection, first, second, .. } => {
            if selection == 0 {
                if *first is Leaf {
                    lemma_append_wf(*second, first.windows());
                } else {
                    lemma_remove_frame_wf(*first);
                }
            } else {
                if *second is Leaf {
                    lemma_append_wf(*first, second.windows());
                } else {
                    lemma_remove_frame_wf(*second);
                }
            }
        },
    }
}

proof fn lemma_append_wf(t: Tree, more: Seq<WinId>)
    requires
        t.wf(),
    ensures
        t.map_focused(|l: Tree| append_to_leaf(l, more)).wf(),
{
    lemma_map_focused(t, |l: Tree| append_to_leaf(l, more));
}

/// Resizing keeps the tree sound, and moves nothing.
proof fn lemma_resized(t: Tree, dir: Dir, delta: Double)
    requires
        t.wf(),
    ensures
        resized(t, dir, delta).wf(),
        resized(t, dir, delta).windows() == t.windows(),
    decreases t,
{
    match t {
        Tree::Leaf { .. } => {},
        Tree::Split { ratio, selection, first, second, .. } => {
            lemma_resized(*first, dir, delta);
            lemma_resized(*second, dir, delta);
            let forward = dir == Dir::Right || dir == Dir::Down;
            assert(nudged(ratio, delta, forward != (selection == 0)).wf());
        },
    }
}

/// Shifting the focused window keeps the tree sound, and every window.
proof fn lemma_shifted(t: Tree, dir: Dir, area: Rect, gap: int)
    requires
        t.wf(),
    ensures
        holds_all(t, shift_towards(t, dir, area, gap)),
{
    match (t.neighbor(dir, area, gap), t.focused_window()) {
        (Some(n), Some(id)) => {
            law_remove(t, id);
            lemma_focus_nth(t.remove(id), n);
            let u = t.remove(id).focus_nth(n);
            lemma_insert_holds(u, id);
            assert forall|x: WinId| #[trigger] t.windows().contains(x) implies u.insert(
                id,
            ).windows().contains(x) by {
                if x != id {
                    lemma_remove_holds(t, id, x);
                    assert(u.windows().contains(x));
                }
            }
        },
        _ => {},
    }
}

// --- where windows stand -------------------------------------------------------------------

/// Whether a window stands in a frame of its tag.
pub open spec fn at_home(trees: Seq<(u64, Tree)>, x: Window) -> bool {
    match value_of(trees, x.tag as u64) {
        Some(t) => t.windows().contains(x.id),
        None => false,
    }
}

/// Whether each window but those that are away stands in a frame of its tag, where trees
/// and windows are sound.
#[verifier::opaque]
pub open spec fn housed(
    trees: Seq<(u64, Tree)>,
    windows: Seq<Window>,
    next: WinId,
    away: Set<WinId>,
) -> bool {
    &&& sound_trees(trees)
    &&& in_number_order(windows, next)
    &&& forall|i: int|
        0 <= i < windows.len() && !away.contains((#[trigger] windows[i]).id) ==> at_home(
            trees,
            windows[i],
        )
}

/// Whether each window of a world but those that are away stands in a frame of its tag.
pub open spec fn home_but(w: World, away: Set<WinId>) -> bool {
    housed(w.trees, w.windows, w.next_win, away)
}

/// Whether each window stands in a frame of its tag.
pub open spec fn all_home(w: World) -> bool {
    home_but(w, Set::empty())
}

/// Where each window that there is stands in a frame of its tag, all are home.
proof fn lemma_home(w: World, away: Set<WinId>, less: Set<WinId>)
    requires
        home_but(w, away),
        forall|id: WinId| #[trigger] away.contains(id) && w.has_win(id) ==> less.contains(id),
    ensures
        home_but(w, less),
{
    reveal(housed);
    assert forall|i: int|
        0 <= i < w.windows.len() && !less.contains((#[trigger] w.windows[i]).id) implies at_home(
        w.trees,
        w.windows[i],
    ) by {
        lemma_there(w, i);
        assert(!away.contains(w.windows[i].id));
    }
}

/// A window that is in the list is known, by the place where it is.
proof fn lemma_there(w: World, i: int)
    requires
        in_number_order(w.windows, w.next_win),
        0 <= i < w.windows.len(),
    ensures
        w.has_win(w.windows[i].id),
        win_place(w.windows, w.windows[i].id) == i,
        w.win(w.windows[i].id) == w.windows[i],
{
    reveal(in_number_order);
    let id = w.windows[i].id;
    lemma_win_place(w.windows, id);
    let p = win_place(w.windows, id);
    if p < i {
        assert(w.windows[p].id < w.windows[i].id);
    }
    if i < p {
        assert(w.windows[i].id != id);
    }
}

/// A tree replaced by one that holds all its windows.
proof fn lemma_tree_grows(w: World, tag: TagId, t: Tree, away: Set<WinId>)
    requires
        home_but(w, away),
        holds_all(w.tree_or_new(tag), t),
    ensures
        home_but(w.with_tree(tag, t), away),
{
    reveal(housed);
    let v = w.with_tree(tag, t);
    lemma_sound_with(w, tag, t);
    assert forall|i: int|
        0 <= i < v.windows.len() && !away.contains((#[trigger] v.windows[i]).id) implies at_home(
        v.trees,
        v.windows[i],
    ) by {
        let x = w.windows[i];
        assert(at_home(w.trees, x));
        reveal(sound_trees);
        law_put(w.trees, tag as u64, t, x.tag as u64);
        if x.tag == tag {
            assert(w.tree_or_new(tag).windows().contains(x.id));
        }
    }
}

/// A sound tree put among sound ones.
proof fn lemma_sound_with(w: World, tag: TagId, t: Tree)
    requires
        sound_trees(w.trees),
        t.wf(),
    ensures
        sound_trees(w.with_tree(tag, t).trees),
{
    reveal(sound_trees);
    law_put(w.trees, tag as u64, t, 0);
    lemma_key_place(w.trees, tag as u64);
    let s = w.with_tree(tag, t).trees;
    assert forall|i: int| 0 <= i < s.len() implies (#[trigger] s[i]).1.wf() by {
        if i < w.trees.len() && i != key_place(w.trees, tag as u64) {
            assert(s[i] == w.trees[i]);
        }
    }
}

/// The tree of a tag is sound.
proof fn lemma_tree_sound(w: World, tag: TagId)
    requires
        sound_trees(w.trees),
    ensures
        w.tree_or_new(tag).wf(),
        w.tree(tag) is Some ==> w.tree(tag)->0.wf(),
{
    reveal(sound_trees);
    lemma_key_place(w.trees, tag as u64);
    if w.tree(tag) is Some {
        assert(w.trees[key_place(w.trees, tag as u64)].1.wf());
    }
}

/// A window replaced: it is away where its tag is another one.
proof fn lemma_win_replaced(w: World, id: WinId, x: Window, away: Set<WinId>)
    requires
        home_but(w, away),
        x.id == id,
    ensures
        home_but(w.with_win(id, x), away.insert(id)),
        w.has_win(id) && x.tag == w.win(id).tag ==> home_but(w.with_win(id, x), away),
        !w.has_win(id) ==> home_but(w.with_win(id, x), away),
{
    reveal(housed);
    reveal(in_number_order);
    lemma_win_place(w.windows, id);
    let v = w.with_win(id, x);
    assert forall|i: int|
        0 <= i < v.windows.len() && !away.contains((#[trigger] v.windows[i]).id) && v.windows[i].id
            != id implies at_home(v.trees, v.windows[i]) by {
        assert(v.windows[i] == w.windows[i]);
    }
    if w.has_win(id) && x.tag == w.win(id).tag {
        assert forall|i: int|
            0 <= i < v.windows.len() && !away.contains((#[trigger] v.windows[i]).id) implies at_home(
            v.trees,
            v.windows[i],
        ) by {
            assert(at_home(w.trees, w.windows[i]));
        }
    }
}

/// A window taken from a tree: it is away.
proof fn lemma_leaf_out(w: World, tag: TagId, id: WinId, away: Set<WinId>)
    requires
        home_but(w, away),
    ensures
        home_but(w.without_leaf(tag, id), away.insert(id)),
{
    reveal(housed);
    let v = w.without_leaf(tag, id);
    lemma_tree_sound(w, tag);
    match w.tree(tag) {
        None => {},
        Some(t) => {
            law_remove(t, id);
            lemma_sound_with(w, tag, t.remove(id));
            assert forall|i: int|
                0 <= i < v.windows.len() && !away.insert(id).contains((#[trigger] v.windows[i]).id) implies at_home(
                v.trees,
                v.windows[i],
            ) by {
                let x = w.windows[i];
                assert(at_home(w.trees, x));
                reveal(sound_trees);
                law_put(w.trees, tag as u64, t.remove(id), x.tag as u64);
                if x.tag == tag {
                    lemma_remove_holds(t, id, x.id);
                }
            }
        },
    }
}

/// A window put into the tree of its tag: it is home.
proof fn lemma_leaf_in(w: World, tag: TagId, id: WinId, away: Set<WinId>)
    requires
        home_but(w, away),
        w.has_win(id) ==> w.win(id).tag == tag,
    ensures
        home_but(w.with_leaf(tag, id), away.remove(id)),
{
    assert(sound_trees(w.trees) && in_number_order(w.windows, w.next_win)) by {
        reveal(housed);
    }
    lemma_tree_sound(w, tag);
    let t = w.tree_or_new(tag).insert(id);
    lemma_insert_holds(w.tree_or_new(tag), id);
    lemma_tree_grows(w, tag, t, away);
    let v = w.with_leaf(tag, id);
    reveal(housed);
    assert forall|i: int|
        0 <= i < v.windows.len() && !away.remove(id).contains((#[trigger] v.windows[i]).id) implies at_home(
        v.trees,
        v.windows[i],
    ) by {
        if v.windows[i].id == id {
            lemma_there(w, i);
            reveal(sound_trees);
            law_put(w.trees, tag as u64, t, tag as u64);
        }
    }
}

// --- windows that change, move and get the focus ------------------------------------------

/// A window replaced by one of its number and tag.
proof fn lemma_win_kept(w: World, id: WinId, x: Window, away: Set<WinId>)
    requires
        home_but(w, away),
        w.has_win(id) ==> x.id == w.win(id).id && x.tag == w.win(id).tag,
    ensures
        home_but(w.with_win(id, x), away),
{
    lemma_win_place(w.windows, id);
    if w.has_win(id) {
        lemma_win_replaced(w, id, x, away);
    }
}

/// A window that starts to float.
proof fn lemma_floated(w: World, id: WinId, geo: Rect, away: Set<WinId>)
    requires
        home_but(w, away),
    ensures
        home_but(w.make_floating(id, geo), away),
{
    lemma_win_kept(
        w,
        id,
        Window { floating: true, float_geo: geo, raise_seq: w.next_raise, ..w.win(id) },
        away,
    );
}

/// A window put at a place.
proof fn lemma_float_at(w: World, id: WinId, geo: Rect)
    requires
        all_home(w),
    ensures
        all_home(float_at(w, id, geo)),
{
    lemma_floated(w, id, geo, Set::empty());
    let v = w.make_floating(id, geo);
    lemma_win_kept(v, id, Window { floating: true, float_geo: geo, ..v.win(id) }, Set::empty());
}

/// A window that becomes a bar.
proof fn lemma_docked(w: World, id: WinId, anchor: DockAnchor, away: Set<WinId>)
    requires
        home_but(w, away),
    ensures
        home_but(w.make_dock(id, anchor), away),
{
    let v = w.make_dock(id, anchor);
    lemma_win_place(w.windows, id);
    if w.has_win(id) {
        lemma_win_kept(w, id, v.windows[win_place(w.windows, id)], away);
    }
}

/// A window that gets the focus.
proof fn lemma_focused(w: World, id: WinId)
    requires
        all_home(w),
    ensures
        all_home(focus_win(w, id)),
{
    if w.has_win(id) {
        let tag = w.win(id).tag;
        assert(sound_trees(w.trees)) by {
            reveal(housed);
        }
        lemma_tree_sound(w, tag);
        let v = focus_leaf(w, tag, id);
        if w.tree(tag) is Some {
            let t = w.tree(tag)->0;
            law_focus_window(t, id);
            lemma_tree_grows(w, tag, t.focus_on(id), Set::empty());
        }
        let u = focus_screen(v, tag);
        let calm = Window { urgent: false, ..u.win(id) };
        lemma_win_kept(u, id, calm, Set::empty());
        lemma_win_kept(u, id, Window { raise_seq: u.next_raise, ..calm }, Set::empty());
    }
}

/// A window that moves to another tag.
proof fn lemma_transferred(w: World, id: WinId, tag: TagId)
    requires
        all_home(w),
        w.has_win(id),
    ensures
        all_home(transfer(w, id, tag)),
{
    let none = Set::<WinId>::empty();
    let v = w.without_leaf(w.win(id).tag, id);
    lemma_leaf_out(w, w.win(id).tag, id, none);
    let x = Window { tag, ..v.win(id) };
    lemma_win_place(v.windows, id);
    lemma_win_replaced(v, id, x, none.insert(id));
    let u = v.with_win(id, x);
    lemma_win_found(v, id, x);
    assert(none.insert(id).insert(id) =~= none.insert(id));
    lemma_leaf_in(u, tag, id, none.insert(id));
    assert(none.insert(id).remove(id) =~= none);
}

/// A window that was replaced is the one that it was replaced by.
proof fn lemma_win_found(w: World, id: WinId, x: Window)
    requires
        x.id == id,
    ensures
        w.with_win(id, x).has_win(id) == w.has_win(id),
        w.has_win(id) ==> w.with_win(id, x).win(id) == x,
{
    lemma_win_place(w.windows, id);
    let v = w.with_win(id, x);
    lemma_win_place(v.windows, id);
    let p = win_place(w.windows, id);
    let q = win_place(v.windows, id);
    if w.has_win(id) {
        if q < p {
            assert(v.windows[q] == w.windows[q]);
        }
        if p < q {
            assert(v.windows[p].id != id);
        }
    }
}

/// Windows that are put on a tag one after the other are home.
proof fn lemma_adopted(w: World, ids: Seq<WinId>, tag: TagId, away: Set<WinId>)
    requires
        home_but(w, away),
    ensures
        home_but(
            adopt(w, ids, tag),
            Set::new(|id: WinId| away.contains(id) && !ids.contains(id)),
        ),
    decreases ids.len(),
{
    let left = Set::new(|id: WinId| away.contains(id) && !ids.contains(id));
    if ids.len() == 0 {
        assert(left =~= away);
    } else {
        let front = ids.drop_last();
        let id = ids.last();
        lemma_adopted(w, front, tag, away);
        let v = adopt(w, front, tag);
        let then = Set::new(|id: WinId| away.contains(id) && !front.contains(id));
        let x = Window { tag, ..v.win(id) };
        lemma_win_place(v.windows, id);
        let u = v.with_win(id, x);
        if v.has_win(id) {
            lemma_win_replaced(v, id, x, then);
            lemma_win_found(v, id, x);
        } else {
            lemma_home(v, then, then.insert(id));
        }
        lemma_leaf_in(u, tag, id, then.insert(id));
        assert(left =~= then.insert(id).remove(id)) by {
            assert forall|y: WinId| left.contains(y) <==> then.insert(id).remove(id).contains(y) by {
                if ids.contains(y) && y != id {
                    let k = choose|k: int| 0 <= k < ids.len() && ids[k] == y;
                    assert(front[k] == y);
                }
                if front.contains(y) {
                    let k = choose|k: int| 0 <= k < front.len() && front[k] == y;
                    assert(ids[k] == y);
                }
                assert(ids[ids.len() - 1] == id);
            }
        }
    }
}

/// The windows of a tag that are put on another.
proof fn lemma_merged(w: World, src: TagId, target: TagId)
    requires
        all_home(w),
        w.tree(src) is Some,
    ensures
        all_home(
            adopt(
                w.with_tree(src, bare_leaf(LayoutMode::Vertical)),
                w.tree(src)->0.windows(),
                target,
            ),
        ),
{
    let bare = bare_leaf(LayoutMode::Vertical);
    let ids = w.tree(src)->0.windows();
    let v = w.with_tree(src, bare);
    let away = Set::new(|id: WinId| ids.contains(id));
    assert(home_but(v, away)) by {
        reveal(housed);
        lemma_sound_with(w, src, bare);
        assert forall|i: int|
            0 <= i < v.windows.len() && !away.contains((#[trigger] v.windows[i]).id) implies at_home(
            v.trees,
            v.windows[i],
        ) by {
            let x = w.windows[i];
            assert(at_home(w.trees, x));
            reveal(sound_trees);
            law_put(w.trees, src as u64, bare, x.tag as u64);
        }
    }
    lemma_adopted(v, ids, target, away);
    assert(Set::new(|id: WinId| away.contains(id) && !ids.contains(id)) =~= Set::<WinId>::empty());
}

/// A window that rules were applied to.
proof fn lemma_ruled(w: World, id: WinId)
    requires
        all_home(w),
    ensures
        all_home(reapply_rules(w, id)),
{
    if w.rules.len() > 0 && w.has_win(id) && !w.win(id).rules_applied {
        let none = Set::<WinId>::empty();
        let one = none.insert(id);
        let old_tag = w.win(id).tag;
        let o = verdict(w, w.win(id));
        let x = ruled(w.win(id), o);
        lemma_win_place(w.windows, id);
        lemma_win_replaced(w, id, x, none);
        lemma_win_found(w, id, x);
        let w1 = w.with_win(id, x);
        let w2 = if o.tag != old_tag {
            w1.without_leaf(old_tag, id).with_leaf(o.tag, id)
        } else {
            w1
        };
        if o.tag != old_tag {
            lemma_leaf_out(w1, old_tag, id, one);
            assert(one.insert(id) =~= one);
            lemma_leaf_in(w1.without_leaf(old_tag, id), o.tag, id, one);
            assert(one.remove(id) =~= none);
        }
        assert(all_home(w2));
        lemma_floated(w2, id, w2.default_float_geo(), none);
        let w3 = if x.floating {
            w2.make_floating(id, w2.default_float_geo())
        } else {
            w2
        };
        if o.dock is Some {
            lemma_docked(w3, id, o.dock->0, none);
        }
        let w4 = placed_by_rules(w, id, old_tag, o);
        assert(all_home(w4));
        let w5 = if o.switchtag {
            World { desk: w4.desk.show(o.tag), ..w4 }
        } else {
            w4
        };
        lemma_focused(w5, id);
    }
}

// --- layouts that are loaded ---------------------------------------------------------------

/// What is left of a sound tree is sound.
proof fn lemma_retained_wf(t: Tree, keep: Set<WinId>)
    requires
        t.wf(),
    ensures
        t.retain(keep).wf(),
    decreases t,
{
    match t {
        Tree::Leaf { .. } => {},
        Tree::Split { first, second, .. } => {
            lemma_retained_wf(*first, keep);
            lemma_retained_wf(*second, keep);
        },
    }
}

/// A tree with windows inserted is sound, holds them, and all that it held.
proof fn lemma_all_inserted(t: Tree, ids: Seq<WinId>)
    requires
        t.wf(),
    ensures
        holds_all(t, insert_all(t, ids)),
        forall|id: WinId| #[trigger] ids.contains(id) ==> insert_all(t, ids).windows().contains(id),
    decreases ids.len(),
{
    if ids.len() > 0 {
        let front = ids.drop_last();
        lemma_all_inserted(t, front);
        let u = insert_all(t, front);
        lemma_insert_holds(u, ids.last());
        assert forall|id: WinId| #[trigger] ids.contains(id) implies insert_all(t, ids).windows().contains(id) by {
            let k = choose|k: int| 0 <= k < ids.len() && ids[k] == id;
            if k < front.len() {
                assert(front[k] == id);
                assert(front.contains(id));
                assert(u.windows().contains(id));
            }
        }
    }
}

/// Every window of a tag that is not held is a stray.
proof fn lemma_strays(windows: Seq<Window>, tag: TagId, held: Seq<WinId>, i: int)
    requires
        0 <= i < windows.len(),
        windows[i].tag == tag,
        !held.contains(windows[i].id),
    ensures
        strays(windows, tag, held).contains(windows[i].id),
    decreases windows.len(),
{
    let front = strays(windows.drop_last(), tag, held);
    let all = strays(windows, tag, held);
    if i == windows.len() - 1 {
        assert(all[all.len() - 1] == windows[i].id);
    } else {
        lemma_strays(windows.drop_last(), tag, held, i);
        let k = choose|k: int| 0 <= k < front.len() && front[k] == windows[i].id;
        assert(all[k] == windows[i].id);
    }
}

/// A layout that is read is sound.
proof fn lemma_read_wf(toks: Seq<Text>, i: int)
    ensures
        tree_at(toks, i) is Some ==> tree_at(toks, i)->Some_0.0.wf(),
    decreases toks.len() - i,
{
    if tree_at(toks, i) is Some {
        reveal_with_fuel(tree_at, 2);
        let t = tree_at(toks, i)->Some_0.0;
        assert(0 <= i && i + 2 < toks.len());
        if toks[i + 1] == "clients"@ {
            let head = toks[i + 2];
            let c = position(head, Class::Is(':'));
            let selected = unsigned(head.skip(c + 1), usize::MAX as int)->0;
            assert(selected >= 0);
            assert(t.wf());
        } else {
            lemma_read_wf(toks, i + 3);
            let parts = fields(toks[i + 2], Class::Is(':'));
            let n = tree_at(toks, i + 3)->Some_0.1;
            lemma_read_wf(toks, n);
            let selection = unsigned(parts[2], usize::MAX as int)->0;
            assert(selection >= 0);
            assert(clamped(double_text(parts[1])->0).wf());
            assert(t.wf());
        }
    }
}

/// A layout that is loaded takes the windows that it names, and all of its tag.
proof fn lemma_loaded(w: World, tag: TagId, s: Text)
    requires
        all_home(w),
        load_layout(w, tag, s) is Ok,
    ensures
        all_home(load_layout(w, tag, s)->Ok_0),
{
    let t = tree_text(s)->0;
    lemma_read_wf(tokens(s), 0);
    let kept = t.retain(win_ids(w.windows));
    lemma_retained_wf(t, win_ids(w.windows));
    let some = strays(w.windows, tag, kept.windows());
    lemma_all_inserted(kept, some);
    let u = settled(w, tag, t);
    let held = u.windows();
    let v1 = World { windows: claimed(w.windows, held, tag), ..w };
    let v = v1.with_tree(tag, u);
    reveal(housed);
    reveal(in_number_order);
    lemma_sound_with(w, tag, u);
    assert forall|i: int| 0 <= i < v.windows.len() implies at_home(v.trees, #[trigger] v.windows[i]) by {
        let x = w.windows[i];
        assert(at_home(w.trees, x));
        reveal(sound_trees);
        law_put(w.trees, tag as u64, u, v.windows[i].tag as u64);
        if !held.contains(x.id) && x.tag == tag {
            if !kept.windows().contains(x.id) {
                lemma_strays(w.windows, tag, kept.windows(), i);
            }
        }
    }
}

// --- commands -------------------------------------------------------------------------------

/// Whether windows and trees are as they were.
pub open spec fn unmoved(w: World, v: World) -> bool {
    v.trees == w.trees && v.windows == w.windows && v.next_win == w.next_win
}

/// The tree of the focused tag replaced by one that holds all its windows.
proof fn lemma_mapped(w: World, f: spec_fn(Tree) -> Tree)
    requires
        all_home(w),
        holds_all(w.tree_or_new(w.focused_tag()), f(w.tree_or_new(w.focused_tag()))),
    ensures
        all_home(w.map_tree(f)),
{
    lemma_tree_grows(
        w,
        w.focused_tag(),
        f(w.tree_or_new(w.focused_tag())),
        Set::empty(),
    );
}

/// The tree of the focused tag is sound.
proof fn lemma_focused_tree(w: World)
    requires
        all_home(w),
    ensures
        w.tree_or_new(w.focused_tag()).wf(),
{
    reveal(housed);
    lemma_tree_sound(w, w.focused_tag());
}

/// Moving the focused window to a tag.
proof fn lemma_moved(w: World, tag: TagId)
    requires
        all_home(w),
    ensures
        all_home(move_to(w, tag).0),
{
    if let Some(id) = w.focused_window() {
        if w.has_win(id) {
            lemma_transferred(w, id, tag);
        }
    }
}

/// Commands on monitors.
proof fn lemma_desk_command(w: World, name: Text, a: Seq<Text>)
    requires
        all_home(w),
        desk_command(w, name, a) is Some,
    ensures
        all_home(desk_command(w, name, a)->Some_0.0),
{
    reveal(desk_command);
    let v = desk_command(w, name, a)->Some_0.0;
    if v == shift_to_monitor(w, a).0 {
        if a.len() > 0 {
            if let Some(i) = find_screen(w.desk.list, selector_text(a[0])) {
                lemma_moved(w, w.desk.list[i].tag);
            }
        }
    } else {
        assert(unmoved(w, v));
    }
}

/// Commands that change how the focused window is shown.
proof fn lemma_shown_command(w: World, a: Seq<Text>)
    requires
        all_home(w),
    ensures
        all_home(restack(w, true)),
        all_home(restack(w, false)),
        all_home(window_mode(w, a, true).0),
        all_home(window_mode(w, a, false).0),
        all_home(floating(w, a).0),
        all_home(floating_geometry(w, a).0),
        all_home(dock(w, a).0),
{
    let none = Set::<WinId>::empty();
    if let Some(id) = w.focused_window() {
        let x = w.win(id);
        let arg = first_or_toggle(a);
        assert forall|seq: u64| all_home(#[trigger] w.with_win(id, Window { raise_seq: seq, ..x })) by {
            lemma_win_kept(w, id, Window { raise_seq: seq, ..x }, none);
        }
        lemma_all_changed(w, |y: Window| stepped(y, id));
        lemma_win_kept(w, id, Window { fullscreen: switched(arg, x.fullscreen), ..x }, none);
        lemma_win_kept(w, id, Window { pseudotile: switched(arg, x.pseudotile), ..x }, none);
        lemma_win_kept(w, id, Window { floating: false, ..x }, none);
        lemma_win_kept(w, id, Window { dock: None, ..x }, none);
        lemma_floated(w, id, w.last_or_default(id), none);
        if a.len() > 0 && rect_text(a[0]) is Some {
            lemma_float_at(w, id, rect_text(a[0])->0);
        }
        assert forall|d: DockAnchor| all_home(#[trigger] w.make_dock(id, d)) by {
            lemma_docked(w, id, d, none);
        }
    }
}

/// Commands on tags and windows.
proof fn lemma_window_command(w: World, name: Text, a: Seq<Text>)
    requires
        all_home(w),
        window_command(w, name, a) is Some,
    ensures
        all_home(window_command(w, name, a)->Some_0.0),
{
    reveal(window_command);
    lemma_shown_command(w, a);
    lemma_focused_tree(w);
    let t = w.tree_or_new(w.focused_tag());
    if name == "use"@ {
        assert(unmoved(w, use_tag(w, a).0));
    } else if name == "use_index"@ {
        assert(unmoved(w, use_index(w, a).0));
    } else if name == "use_previous"@ {
        assert(unmoved(w, use_previous(w).0));
    } else if name == "merge_tag"@ {
        if a.len() > 0 && tag_text(a[0]) is Some {
            let src = tag_text(a[0])->0;
            let target = if a.len() > 1 && tag_text(a[1]) is Some {
                tag_text(a[1])->0
            } else {
                w.focused_tag()
            };
            if w.tree(src) is Some {
                lemma_merged(w, src, target);
            }
        }
    } else if name == "move"@ {
        if a.len() > 0 && tag_text(a[0]) is Some {
            lemma_moved(w, tag_text(a[0])->0);
        }
    } else if name == "bring"@ {
        if a.len() > 0 && id_text(a[0]) is Some {
            let id = id_text(a[0])->0;
            if w.has_win(id) {
                lemma_transferred(w, id, w.focused_tag());
            }
            law_fetch(t, id);
            lemma_same_population(t, t.fetch(id));
            lemma_mapped(w, |t: Tree| t.fetch(id));
        }
    } else if name == "jumpto"@ {
        assert forall|id: WinId| all_home(#[trigger] focus_win(w, id)) by {
            lemma_focused(w, id);
        }
    } else if name == "close"@ {
        assert(unmoved(w, close(w).0));
    } else if name == "close_or_remove"@ {
        assert(unmoved(w, close(w).0));
        lemma_frame_removed(w);
    }
}

/// The focused frame removed.
proof fn lemma_frame_removed(w: World)
    requires
        all_home(w),
    ensures
        all_home(remove(w).0),
{
    lemma_focused_tree(w);
    let t = w.tree_or_new(w.focused_tag());
    lemma_remove_frame_wf(t);
    law_remove_frame(t);
    lemma_same_population(t, t.remove_frame());
    lemma_mapped(w, |t: Tree| t.remove_frame());
}

/// Commands that change the focused frame and move no window out of it.
proof fn lemma_leaf_command(w: World, a: Seq<Text>)
    requires
        all_home(w),
    ensures
        all_home(cycle(w, a).0),
        all_home(set_layout(w, a).0),
        all_home(cycle_layout(w).0),
        all_home(split_frame(w, a).0),
{
    lemma_focused_tree(w);
    let t = w.tree_or_new(w.focused_tag());
    let n = steps(a);
    let turn = |l: Tree| cycle_leaf(l, n);
    lemma_map_in_place(t, turn);
    lemma_mapped(w, |t: Tree| t.map_focused(|l: Tree| cycle_leaf(l, n)));
    if a.len() > 0 && layout_named(a[0]) is Some {
        let mode = layout_named(a[0])->0;
        let arrange = |l: Tree| arrange_leaf(l, mode);
        lemma_map_in_place(t, arrange);
        lemma_mapped(w, |t: Tree| t.map_focused(|l: Tree| arrange_leaf(l, mode)));
    }
    let advance = |l: Tree| advance_leaf(l);
    lemma_map_in_place(t, advance);
    lemma_mapped(w, |t: Tree| t.map_focused(|l: Tree| advance_leaf(l)));
    if a.len() > 0 && split_named(a[0]) is Some {
        let dir = split_named(a[0])->0;
        let share = split_share(a);
        assert(share.wf());
        lemma_split_holds(t, dir, share);
        lemma_mapped(w, |t: Tree| t.map_focused(|l: Tree| split_leaf(l, dir, share)));
    }
}

/// Commands that lead the focus elsewhere, or change the shares of frames.
proof fn lemma_tree_command(w: World, a: Seq<Text>)
    requires
        all_home(w),
    ensures
        all_home(focus(w, a).0),
        all_home(shift(w, a).0),
        all_home(resize(w, a).0),
        all_home(cycle_all(w, a).0),
        all_home(cycle_frame(w, a).0),
        all_home(focus_frame(w, a).0),
{
    lemma_focused_tree(w);
    let t = w.tree_or_new(w.focused_tag());
    let area = w.focused_area();
    let gap = w.settings.window_gap as int;
    assert forall|n: int| holds_all(t, #[trigger] t.focus_nth(n)) by {
        lemma_focus_nth(t, n);
    }
    if a.len() > 0 && dir_named(a[0]) is Some {
        let dir = dir_named(a[0])->0;
        lemma_mapped(w, |t: Tree| focus_towards(t, dir, area, gap));
        lemma_shifted(t, dir, area, gap);
        lemma_mapped(w, |t: Tree| shift_towards(t, dir, area, gap));
        let delta = resize_step(a);
        lemma_resized(t, dir, delta);
        lemma_mapped(w, |t: Tree| resized(t, dir, delta));
    }
    let n = steps(a);
    lemma_tree_grows(w, w.focused_tag(), t, Set::empty());
    law_focus_window(t, window_on(t, n));
    lemma_tree_grows(w, w.focused_tag(), t.focus_on(window_on(t, n)), Set::empty());
    lemma_mapped(w, |t: Tree| frame_on(t, n));
    if a.len() > 0 && unsigned(a[0], usize::MAX as int) is Some {
        let n = unsigned(a[0], usize::MAX as int)->0;
        lemma_mapped(w, |t: Tree| frame_at(t, n));
    }
}

/// Commands on frames.
proof fn lemma_frame_command(w: World, name: Text, a: Seq<Text>)
    requires
        all_home(w),
        frame_command(w, name, a) is Some,
    ensures
        all_home(frame_command(w, name, a)->Some_0.0),
{
    reveal(frame_command);
    lemma_leaf_command(w, a);
    lemma_tree_command(w, a);
    lemma_frame_removed(w);
    if name == "load"@ && a.len() > 0 {
        assert forall|tag: TagId, s: Text| (#[trigger] load_layout(w, tag, s)) is Ok implies all_home(
            load_layout(w, tag, s)->Ok_0,
        ) by {
            lemma_loaded(w, tag, s);
        }
    }
}

/// Commands on attributes.
proof fn lemma_attr_command(w: World, name: Text, a: Seq<Text>)
    requires
        all_home(w),
        attr_command(w, name, a) is Some,
    ensures
        all_home(attr_command(w, name, a)->Some_0.0),
{
    reveal(attr_command);
    if name == "set_attr"@ && a.len() >= 2 {
        assert forall|id: WinId, key: Text, v: Text| (#[trigger] set_client(w, id, key, v)) is Ok implies all_home(
            set_client(w, id, key, v)->Ok_0,
        ) by {
            let none = Set::<WinId>::empty();
            let x = w.win(id);
            let on = is_yes(v);
            lemma_win_kept(w, id, Window { fullscreen: on, ..x }, none);
            lemma_win_kept(w, id, Window { pseudotile: on, ..x }, none);
            lemma_win_kept(w, id, Window { urgent: on, ..x }, none);
            lemma_win_kept(w, id, Window { floating: false, ..x }, none);
            lemma_floated(w, id, w.last_or_default(id), none);
            if rect_text(v) is Some {
                lemma_float_at(w, id, rect_text(v)->0);
            }
        }
        assert forall|i: int, key: Text, v: Text| (#[trigger] set_monitor(w, i, key, v)) is Ok implies unmoved(
            w,
            set_monitor(w, i, key, v)->Ok_0,
        ) by {}
    }
}

/// Backgrounds move no window.
proof fn lemma_backdrops(w: World, mons: Seq<usize>, c: Backdrop)
    ensures
        unmoved(w, set_backdrops(w, mons, c)),
        unmoved(w, without_backdrops(w, mons)),
    decreases mons.len(),
{
    if mons.len() > 0 {
        lemma_backdrops(w, mons.drop_last(), c);
    }
}

/// `set` moves no window.
proof fn lemma_set(w: World, a: Seq<Text>)
    ensures
        unmoved(w, crate::cmd_set::set(w, a).0),
{
}

/// `bar` moves no window.
proof fn lemma_bar(w: World, a: Seq<Text>)
    ensures
        unmoved(w, bar(w, a).0),
{
    assert(unmoved(w, bar_cleared(w)));
    assert(unmoved(w, bar_destroyed(w)));
    let b = a.skip(1);
    assert(unmoved(w, bar_create(w, b).0));
    assert(unmoved(w, add_executor(w, b.skip(1)).0));
    assert(unmoved(w, bar_add(w, b).0));
}

/// Commands on the rest move no window.
proof fn lemma_other_command(w: World, name: Text, a: Seq<Text>)
    requires
        other_command(w, name, a) is Some,
    ensures
        unmoved(w, other_command(w, name, a)->Some_0.0),
{
    reveal(other_command);
    lemma_set(w, a);
    lemma_bar(w, a);
    assert(unmoved(w, rule(w, a).0));
    assert(unmoved(w, mousebind(w, a).0));
    assert(unmoved(w, gesturebind(w, a).0));
    assert(unmoved(w, gestureunbind(w, a).0));
}

/// A command that is carried out at once loses no window.
proof fn lemma_at_once(w: World, name: Text, a: Seq<Text>)
    requires
        all_home(w),
        at_once(w, name, a) is Some,
    ensures
        all_home(at_once(w, name, a)->Some_0.0),
{
    reveal(at_once);
    if desk_command(w, name, a) is Some {
        lemma_desk_command(w, name, a);
    } else if window_command(w, name, a) is Some {
        lemma_window_command(w, name, a);
    } else if frame_command(w, name, a) is Some {
        lemma_frame_command(w, name, a);
    } else if list_command(w, name, a) is Some {
    } else if attr_command(w, name, a) is Some {
        lemma_attr_command(w, name, a);
    } else {
        lemma_other_command(w, name, a);
    }
}

/// Asking for backgrounds moves no window.
proof fn lemma_wallpaper(w: World, a: Seq<Text>)
    ensures
        wallpaper(w, a) matches Wall::Done(v, _) ==> unmoved(w, v),
{
    assert forall|mons: Seq<usize>, c: Backdrop| unmoved(w, #[trigger] set_backdrops(w, mons, c)) by {
        lemma_backdrops(w, mons, c);
    }
    assert forall|mons: Seq<usize>| unmoved(w, #[trigger] without_backdrops(w, mons)) by {
        lemma_backdrops(w, mons, Backdrop::Color((0, 0, 0, 0)));
    }
}

/// The beginning of a command that may ask something moves no window.
proof fn lemma_asking(w: World, name: Text, a: Seq<Text>)
    requires
        begin_asking(w, name, a) is Some,
    ensures
        unmoved(w, begin_asking(w, name, a)->Some_0.0),
{
    lemma_wallpaper(w, a);
    assert(unmoved(w, begin_keybind(w, a).0));
    assert(unmoved(w, launcher_closed(w)));
    assert(unmoved(w, apps_opened(w)));
    reveal(begin_asking);
}

/// The beginning of a command loses no window.
proof fn lemma_begun(w: World, args: Seq<Text>)
    requires
        all_home(w),
    ensures
        all_home(begin(w, args).0),
{
    if args.len() > 0 {
        let name = args[0];
        let a = args.skip(1);
        if begin_outer(w, name, a) is None {
            if begin_asking(w, name, a) is Some {
                lemma_asking(w, name, a);
            } else if at_once(w, name, a) is Some {
                lemma_at_once(w, name, a);
            }
        }
    }
}

/// All that follows loses no window.
proof fn lemma_settled(w: World, t: Turn, stack: Seq<Coat>)
    requires
        all_home(w),
    ensures
        all_home(crate::ipc::settled(w, t, stack).0),
    decreases turn_weight(t) + stack_weight(stack),
{
    reveal_with_fuel(crate::ipc::settled, 1);
    lemma_step_lighter(w, t, stack);
    if let Turn::Run(args) = t {
        lemma_begun(w, args);
    }
    if let Step::Next(v, next, rest) = step(w, t, stack) {
        lemma_settled(v, next, rest);
    }
}

// --- laws ---------------------------------------------------------------------------------

/// At the start no window is lost: there is none.
pub proof fn law_none_at_start(globals: Globals)
    ensures
        all_home(fresh_world(globals)),
{
    reveal(housed);
    reveal(sound_trees);
    reveal(in_number_order);
}

/// No command loses a window: where each one stands in a frame of its tag, it does so
/// after any command, with all the commands inside it.
pub proof fn law_commands_lose_none(w: World, args: Seq<Text>)
    requires
        all_home(w),
    ensures
        all_home(dispatched(w, args).0),
{
    lemma_settled(w, Turn::Run(args), Seq::empty());
}

/// A command that goes on with an answer from outside loses no window, whatever the
/// answer is.
pub proof fn law_answers_lose_none(w: World, ask: Ask, stack: Seq<Coat>, told: Told)
    requires
        all_home(w),
    ensures
        all_home(resumed(w, ask, stack, told).0),
{
    assert forall|mons: Seq<usize>, c: Backdrop| unmoved(w, #[trigger] set_backdrops(w, mons, c)) by {
        lemma_backdrops(w, mons, c);
    }
    let (v, said) = answered(w, ask, told);
    assert(unmoved(w, v));
    lemma_settled(v, Turn::Back(said), stack);
}

/// A new window gets a place in a frame of its tag, and no other loses its own.
pub proof fn law_new_window_stands(w: World)
    requires
        all_home(w),
        w.next_win < u64::MAX,
    ensures
        all_home(window_added(w)),
{
    let none = Set::<WinId>::empty();
    let id = w.next_win;
    let x = fresh_window(id, w.focused_tag());
    let v = World { windows: w.windows.push(x), next_win: bump(id), ..w };
    assert(home_but(v, none.insert(id))) by {
        reveal(housed);
        reveal(in_number_order);
        assert forall|i: int|
            0 <= i < v.windows.len() && !none.insert(id).contains((#[trigger] v.windows[i]).id) implies at_home(
            v.trees,
            v.windows[i],
        ) by {
            assert(v.windows[i] == w.windows[i]);
        }
    }
    assert(in_number_order(v.windows, v.next_win)) by {
        reveal(housed);
    }
    lemma_there(v, w.windows.len() as int);
    lemma_leaf_in(v, w.focused_tag(), id, none.insert(id));
    assert(none.insert(id).remove(id) =~= none);
}

/// A window that is gone takes the place of no other.
pub proof fn law_closing_loses_no_other(w: World, id: WinId)
    requires
        all_home(w),
    ensures
        all_home(window_closed(w, id)),
{
    if w.has_win(id) {
        let none = Set::<WinId>::empty();
        let p = win_place(w.windows, id);
        lemma_win_place(w.windows, id);
        let v = World {
            windows: w.windows.remove(p),
            overlays: drop_key(w.overlays, id),
            ..w
        };
        assert(all_home(v) && !v.has_win(id)) by {
            reveal(housed);
            reveal(in_number_order);
            assert forall|i: int| 0 <= i < v.windows.len() implies at_home(v.trees, #[trigger] v.windows[i])
                && v.windows[i].id != id by {
                let k = if i < p {
                    i
                } else {
                    i + 1
                };
                assert(v.windows[i] == w.windows[k]);
                assert(at_home(w.trees, w.windows[k]));
            }
            lemma_win_place(v.windows, id);
        }
        let tag = w.win(id).tag;
        lemma_leaf_out(v, tag, id, none);
        lemma_home(v.without_leaf(tag, id), none.insert(id), none);
    }
}

/// A window that gets a title, or says what it is, is moved by rules to where it stands
/// in a frame of its new tag.
pub proof fn law_rules_lose_none(w: World, id: WinId, title: Option<String>, app_id: Option<String>)
    requires
        all_home(w),
    ensures
        all_home(window_titled(w, id, title)),
        all_home(reapply_rules(w.with_win(id, Window { app_id, ..w.win(id) }), id)),
{
    let none = Set::<WinId>::empty();
    lemma_win_kept(w, id, Window { title, ..w.win(id) }, none);
    lemma_win_kept(w, id, Window { app_id, ..w.win(id) }, none);
    let v = w.with_win(id, Window { title, ..w.win(id) });
    let u = if v.focused_window() == Some(id) {
        hook_three(v, "window_title_changed"@, show(id as nat), text_or_empty(title.deep_view()))
    } else {
        v
    };
    lemma_ruled(u, id);
    lemma_ruled(w.with_win(id, Window { app_id, ..w.win(id) }), id);
}

/// Neither the pointer nor a click on a window moves it from its frame.
pub proof fn law_pointing_loses_none(w: World, id: WinId)
    requires
        all_home(w),
    ensures
        all_home(pointer_entered(w, Some(id))),
        all_home(focus_win(w, id)),
{
    lemma_focused(World { pointer_focus: Some(id), ..w }, id);
    lemma_focused(w, id);
}

/// Windows that all change, but for their numbers and tags.
proof fn lemma_all_changed(w: World, f: spec_fn(Window) -> Window)
    requires
        all_home(w),
        forall|x: Window| (#[trigger] f(x)).id == x.id && f(x).tag == x.tag,
    ensures
        all_home(World { windows: w.windows.map_values(f), ..w }),
{
    reveal(housed);
    reveal(in_number_order);
    let ws = w.windows.map_values(f);
    assert forall|i: int| 0 <= i < ws.len() implies at_home(w.trees, #[trigger] ws[i]) && ws[i].id
        == w.windows[i].id by {
        assert(at_home(w.trees, w.windows[i]));
        assert(ws[i] == f(w.windows[i]));
    }
}

/// Windows that start to be moved with the pointer.
proof fn lemma_ops(w: World, starts: Seq<(usize, bool)>)
    requires
        all_home(w),
    ensures
        all_home(ops_started(w, starts).0),
    decreases starts.len(),
{
    if starts.len() > 0 {
        lemma_ops(w, starts.drop_last());
        let v = ops_started(w, starts.drop_last()).0;
        if let Some(id) = v.pointer_focus {
            lemma_floated(v, id, op_geo(v, id), Set::empty());
        }
    }
}

/// Windows that are told where they are.
proof fn lemma_told(w: World, items: Seq<RenderItem>)
    requires
        all_home(w),
    ensures
        all_home(items_told(w, items).0),
    decreases items.len(),
{
    if items.len() > 0 {
        lemma_told(w, items.drop_last());
        let v = items_told(w, items.drop_last()).0;
        let id = items.last().win;
        let none = Set::<WinId>::empty();
        lemma_win_kept(v, id, Window { applied_fullscreen: true, ..v.win(id) }, none);
        lemma_win_kept(v, id, Window { applied_fullscreen: false, ..v.win(id) }, none);
    }
}

/// Managing windows loses none of them.
pub proof fn law_managing_loses_none(w: World)
    requires
        all_home(w),
    ensures
        all_home(managed(w).0),
{
    lemma_all_changed(w, |x: Window| readied(w, x));
    let v1 = all_readied(w);
    let v2 = World { pending_close: Seq::empty(), ..v1 };
    let v3 = World { pending_op_start: Seq::empty(), ..v2 };
    lemma_ops(v3, w.pending_op_start);
    let v = first_half(w).0;
    assert(all_home(v));
    let items = layout(v);
    lemma_told(v, items);
    let t = items_told(v, items).0;
    lemma_all_changed(t, |x: Window| let_go(x, items));
    let u = World { windows: t.windows.map_values(|x: Window| let_go(x, items)), ..t };
    if let Focus::Window(id) = keyboard(u) {
        lemma_win_kept(u, id, Window { urgent: false, ..u.win(id) }, Set::empty());
    }
}

/// Every window whose tag a monitor shows is laid out.
pub proof fn law_none_out_of_sight(w: World, mi: usize, i: int)
    requires
        all_home(w),
        w.desk.list.len() <= usize::MAX,
        mi < w.desk.list.len(),
        0 <= i < w.windows.len(),
        w.windows[i].tag == w.desk.list[mi as int].tag,
    ensures
        taken(layout(w), w.windows[i].id),
{
    let m = w.desk.list[mi as int];
    let x = w.windows[i];
    assert(in_number_order(w.windows, w.next_win) && at_home(w.trees, x)) by {
        reveal(housed);
    }
    lemma_there(w, i);
    let t = w.tree(m.tag)->0;
    let area = inset(shrink(m.rect, m.pad), tag_gap(w, m.tag) as int);
    law_place_all(t, area, tag_gap(w, m.tag) as int);
    let k = choose|k: int| 0 <= k < t.windows().len() && t.windows()[k] == x.id;
    assert(tag_places(w, m)[k].win == x.id);
    law_all_laid_out(w, mi, x.id);
}

} // verus!
