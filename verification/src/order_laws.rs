//! What the commands on frames and on monitors leave behind.

use vstd::prelude::*;
use crate::cmd_frame::{cycle_frame, focus_frame, resize_step, set_layout, split_share};
use crate::cmd_layout::{claimed, strays, win_ids};
use crate::cmd_monitor::{
    add_monitor, bad_rect, focus_monitor, lock_tag, rects_of, rename_monitor, set_monitors, unlock_tag,
};
use crate::desk_laws::lemma_given;
use crate::double::{double_text, WHOLE};
use crate::frame::{layout_named, LayoutMode, WinId};
use crate::frame_laws::law_focus_nth;
use crate::monitor::{law_rect_round_trip, rect_text, selector_text, show_rect, Rect, Screen, TagId};
use crate::number::{law_signed_round_trip, law_unsigned_round_trip, show, show_int};
use crate::screen_laws::law_by_number;
use crate::state::{lemma_tree_wf, Output, Window, World};
use crate::outputs::{by_corner, detect_monitors, output_place, output_under, sized};
use crate::route::set_tag_monitor;
use crate::cmd_window::use_tag;
use crate::table::law_put;
use crate::rules::{judged, verdict, DockAnchor};
use crate::layout::dock_rect;
use crate::outputs::in_rect;
use crate::text::{trim_start, Class, Text};
use crate::tree::{arrange_leaf, Tree};

verus! {

// --- frames -----------------------------------------------------------------------------

proof fn lemma_arranged(t: Tree, mode: LayoutMode)
    ensures
        ({
            let u = t.map_focused(|l: Tree| arrange_leaf(l, mode));
            &&& u.focused_leaf() is Leaf
            &&& u.focused_leaf()->layout == mode
            &&& u.focused_leaf().windows() == t.focused_leaf().windows()
            &&& u.windows() == t.windows() && u.leaves() == t.leaves() && u.focused_index() == t.focused_index()
        }),
    decreases t,
{
    match t {
        Tree::Leaf { .. } => {},
        Tree::Split { selection, first, second, .. } => {
            if selection == 0 {
                lemma_arranged(*first, mode);
            } else {
                lemma_arranged(*second, mode);
            }
        },
    }
}

/// An arrangement is given to the focused frame of the focused tag, and windows and frames
/// stay; other tags are as they were.
pub proof fn law_arranged(w: World, word: Text, mode: LayoutMode, other: TagId)
    requires
        w.wf(),
        layout_named(word) == Some(mode),
        other != w.focused_tag(),
    ensures
        ({
            let v = set_layout(w, seq![word]).0;
            let t = w.tree_or_new(w.focused_tag());
            let u = v.tree(w.focused_tag());
            &&& u is Some && u->0.focused_leaf()->layout == mode
            &&& u->0.windows() == t.windows() && u->0.leaves() == t.leaves() && u->0.focused_index() == t.focused_index()
            &&& v.tree(other) == w.tree(other)
        }),
{
    let tag = w.focused_tag();
    let t = w.tree_or_new(tag);
    lemma_arranged(t, mode);
    lemma_given(w, tag, t.map_focused(|l: Tree| arrange_leaf(l, mode)), other);
}

/// A frame gets the focus by its number, counted from zero; a number that is too large
/// changes no focus.
pub proof fn law_frame_by_number(w: World, n: usize)
    requires
        w.wf(),
    ensures
        ({
            let v = focus_frame(w, seq![show(n as nat)]).0;
            let t = w.tree_or_new(w.focused_tag());
            let u = v.tree(w.focused_tag());
            &&& u is Some && u->0.windows() == t.windows()
            &&& n < t.leaves() ==> u->0.focused_index() == n
            &&& n >= t.leaves() ==> u->0 == t
        }),
{
    law_unsigned_round_trip(n as nat, usize::MAX as int);
    let tag = w.focused_tag();
    let t = w.tree_or_new(tag);
    lemma_tree_wf(w, tag);
    if n < t.leaves() {
        law_focus_nth(t, n as int);
    }
    lemma_given(w, tag, crate::cmd_frame::frame_at(t, n as int), tag);
}

/// The focus goes on by so many frames, round all of them; by one where nothing is said.
pub proof fn law_frame_steps(w: World, n: i32)
    requires
        w.wf(),
        w.tree_or_new(w.focused_tag()).leaves() > 1,
    ensures
        ({
            let t = w.tree_or_new(w.focused_tag());
            let u = cycle_frame(w, seq![show_int(n as int)]).0.tree(w.focused_tag());
            let one = cycle_frame(w, Seq::empty()).0.tree(w.focused_tag());
            &&& u is Some && u->0.windows() == t.windows()
            &&& (u->0.focused_index() - t.focused_index() - n) % (t.leaves() as int) == 0
            &&& 0 <= u->0.focused_index() < t.leaves()
            &&& one is Some && (t.focused_index() + 1 < t.leaves() ==> one->0.focused_index() == t.focused_index() + 1)
            &&& t.focused_index() + 1 == t.leaves() ==> one->0.focused_index() == 0
        }),
{
    law_signed_round_trip(n as int, i32::MIN as int, i32::MAX as int);
    let tag = w.focused_tag();
    let t = w.tree_or_new(tag);
    lemma_tree_wf(w, tag);
    let m = t.leaves() as int;
    let i = t.focused_index() as int;
    let at = (i + n) % m;
    let next = (i + 1) % m;
    vstd::arithmetic::div_mod::lemma_mod_bound(i + n, m);
    vstd::arithmetic::div_mod::lemma_mod_bound(i + 1, m);
    vstd::arithmetic::div_mod::lemma_fundamental_div_mod(i + n, m);
    law_focus_nth(t, at);
    law_focus_nth(t, next);
    lemma_given(w, tag, crate::cmd_frame::frame_on(t, n as int), tag);
    lemma_given(w, tag, crate::cmd_frame::frame_on(t, 1), tag);
    let q = (i + n) / m;
    assert(at - i - n == m * (-q)) by (nonlinear_arith)
        requires
            i + n == m * q + at,
    ;
    vstd::arithmetic::div_mod::lemma_mod_multiples_basic(-q, m);
    assert(m * (-q) == (-q) * m) by (nonlinear_arith);
    lemma_index_below(t);
    if i + 1 < m {
        vstd::arithmetic::div_mod::lemma_small_mod((i + 1) as nat, m as nat);
    } else {
        vstd::arithmetic::div_mod::lemma_mod_self_0(m);
    }
}

proof fn lemma_index_below(t: Tree)
    ensures
        t.focused_index() < t.leaves(),
    decreases t,
{
    match t {
        Tree::Leaf { .. } => {},
        Tree::Split { first, second, .. } => {
            lemma_index_below(*first);
            lemma_index_below(*second);
        },
    }
}

/// A frame is split in halves where no share is given, and a border moves by a fiftieth
/// where nothing is said; a plus before a number changes nothing.
pub proof fn law_usual_shares(side: Text, n: Text)
    requires
        n.len() > 0,
        n[0] != '+',
    ensures
        2 * split_share(seq![side]).units == crate::ratio::ONE,
        resize_step(seq![side]) is Mag,
        !resize_step(seq![side])->neg,
        -1000 <= 50 * resize_step(seq![side])->units - WHOLE <= WHOLE / 1_000_000,
        double_text(n) is Some ==> resize_step(seq![side, seq!['+'] + n]) == double_text(n)->0 && resize_step(seq![side, n])
            == double_text(n)->0,
{
    let s = seq!['+'] + n;
    assert(s[0] == '+');
    assert(s.drop_first() =~= n);
    reveal_with_fuel(trim_start, 3);
    assert(trim_start(n, Class::Is('+')) == n);
    assert(trim_start(s, Class::Is('+')) == n);
}

/// The windows that a layout names are on its tag afterwards, and no other window changes
/// its tag.
pub proof fn law_claimed(windows: Seq<Window>, held: Seq<WinId>, tag: TagId, i: int)
    requires
        0 <= i < windows.len(),
    ensures
        claimed(windows, held, tag).len() == windows.len(),
        held.contains(windows[i].id) ==> claimed(windows, held, tag)[i] == (Window { tag, ..windows[i] }),
        !held.contains(windows[i].id) ==> claimed(windows, held, tag)[i] == windows[i],
{
}

/// The windows of a tag that a layout does not name are those that are put in besides.
pub proof fn law_strays(windows: Seq<Window>, x: Window, tag: TagId, held: Seq<WinId>)
    ensures
        x.tag == tag && !held.contains(x.id) ==> strays(windows.push(x), tag, held) == strays(windows, tag, held).push(x.id),
        x.tag != tag || held.contains(x.id) ==> strays(windows.push(x), tag, held) == strays(windows, tag, held),
        strays(Seq::empty(), tag, held).len() == 0,
        win_ids(windows.push(x)) == win_ids(windows).insert(x.id),
{
    assert(windows.push(x).drop_last() =~= windows);
}

// --- monitors ---------------------------------------------------------------------------

proof fn lemma_all_rects(a: Seq<Text>)
    requires
        forall|i: int| 0 <= i < a.len() ==> rect_text(#[trigger] a[i]) is Some,
    ensures
        bad_rect(a) == a.len(),
    decreases a.len(),
{
    if a.len() > 0 {
        assert(rect_text(a[0]) is Some);
        let rest = a.drop_first();
        assert forall|i: int| 0 <= i < rest.len() implies rect_text(#[trigger] rest[i]) is Some by {
            assert(rest[i] == a[i + 1]);
        }
        lemma_all_rects(rest);
    }
}

/// The monitors are those that were written, in that order, the first showing the first tag,
/// and outputs change them no more.
pub proof fn law_monitors_set(w: World, rects: Seq<Rect>, i: int)
    requires
        0 <= i < rects.len() < u32::MAX,
        forall|k: int| 0 <= k < rects.len() ==> (#[trigger] rects[k]).h >= 0,
    ensures
        ({
            let v = set_monitors(w, rects.map_values(|r: Rect| show_rect(r))).0;
            &&& v.desk.list.len() == rects.len()
            &&& v.desk.list[i].rect == rects[i]
            &&& v.desk.list[i].tag == i + 1
            &&& v.desk.list[i].name is None && v.desk.list[i].locked_tag is None
            &&& !v.auto_monitors
            &&& w.desk.focus < rects.len() ==> v.desk.focus == w.desk.focus
            &&& w.desk.focus >= rects.len() ==> v.desk.focus == rects.len() - 1
        }),
{
    let a = rects.map_values(|r: Rect| show_rect(r));
    assert forall|k: int| 0 <= k < a.len() implies rect_text(#[trigger] a[k]) == Some(rects[k]) by {
        law_rect_round_trip(rects[k]);
    }
    lemma_all_rects(a);
    assert(rects_of(a) =~= rects);
}

/// One more monitor lies behind those that there are, where it is said, with the tag and the
/// name that are said.
pub proof fn law_monitor_added(w: World, r: Rect, tag: TagId, name: Text)
    requires
        r.h >= 0,
    ensures
        ({
            let v = add_monitor(w, seq![show_rect(r), show(tag as nat), name]).0;
            let n = w.desk.list.len();
            &&& v.desk.list.len() == n + 1 && v.desk.list.take(n as int) == w.desk.list
            &&& v.desk.list[n as int].rect == r && v.desk.list[n as int].tag == tag
            &&& v.desk.list[n as int].name == Some(name) && v.desk.list[n as int].locked_tag is None
            &&& v.desk.focus == w.desk.focus
            &&& add_monitor(w, seq![show_rect(r), show(tag as nat)]).0.desk.list[n as int].name is None
        }),
{
    law_rect_round_trip(r);
    law_unsigned_round_trip(tag as nat, u32::MAX as int);
    let v = add_monitor(w, seq![show_rect(r), show(tag as nat), name]).0;
    assert(v.desk.list.take(w.desk.list.len() as int) =~= w.desk.list);
}

/// The monitor that is named gets the focus, the name, the lock or loses it, and no other
/// monitor changes.
pub proof fn law_one_monitor(w: World, i: usize, tag: TagId, name: Text, j: int)
    requires
        i < w.desk.list.len(),
        0 <= j < w.desk.list.len(),
        j != i,
        name.len() > 0,
    ensures
        ({
            let sel = show(i as nat);
            let m = w.desk.list[i as int];
            let focused = focus_monitor(w, seq![sel]).0.desk;
            let named = rename_monitor(w, seq![sel, name]).0.desk;
            let bare = rename_monitor(w, seq![sel, Seq::empty()]).0.desk;
            let locked = lock_tag(w, seq![show(tag as nat), sel]).0.desk;
            let freed = unlock_tag(w, seq![sel]).0.desk;
            &&& focused.focus == i && focused.list == w.desk.list
            &&& named.list[i as int] == (Screen { name: Some(name), ..m }) && named.list[j] == w.desk.list[j]
            &&& bare.list[i as int] == (Screen { name: None, ..m })
            &&& locked.list[i as int] == (Screen { locked_tag: Some(tag), tag, ..m }) && locked.list[j] == w.desk.list[j]
            &&& freed.list[i as int] == (Screen { locked_tag: None, ..m }) && freed.list[j] == w.desk.list[j]
            &&& named.focus == w.desk.focus && locked.focus == w.desk.focus && freed.focus == w.desk.focus
        }),
{
    law_by_number(w.desk.list, i as nat);
    law_unsigned_round_trip(tag as nat, u32::MAX as int);
}

/// A geometry names the width, the height, and where the corner is, in that order.
pub proof fn law_geometry_order(x: nat, y: nat, wide: nat, high: nat)
    requires
        x <= i32::MAX,
        y <= i32::MAX,
        wide <= i32::MAX,
        high <= i32::MAX,
    ensures
        rect_text(show(wide) + seq!['x'] + show(high) + (seq!['+'] + show(x)) + (seq!['+'] + show(y))) == Some(
            Rect { x: x as i32, y: y as i32, w: wide as i32, h: high as i32 },
        ),
{
    let r = Rect { x: x as i32, y: y as i32, w: wide as i32, h: high as i32 };
    law_rect_round_trip(r);
    assert(show_rect(r) == show(wide) + seq!['x'] + show(high) + (seq!['+'] + show(x)) + (seq!['+'] + show(y)));
}

// --- outputs ----------------------------------------------------------------------------

proof fn lemma_output_place(outputs: Seq<Output>, x: int, y: int)
    ensures
        0 <= output_place(outputs, x, y) <= outputs.len(),
        output_place(outputs, x, y) < outputs.len() ==> in_rect(outputs[output_place(outputs, x, y)].geo, x, y),
        forall|i: int| 0 <= i < output_place(outputs, x, y) ==> !in_rect((#[trigger] outputs[i]).geo, x, y),
    decreases outputs.len(),
{
    if outputs.len() > 0 && !in_rect(outputs[0].geo, x, y) {
        lemma_output_place(outputs.drop_first(), x, y);
        let p = output_place(outputs, x, y);
        assert forall|i: int| 0 <= i < p implies !in_rect((#[trigger] outputs[i]).geo, x, y) by {
            if i > 0 {
                assert(outputs.drop_first()[i - 1] == outputs[i]);
            }
        }
        if p < outputs.len() {
            assert(outputs.drop_first()[p - 1] == outputs[p]);
        }
    }
}

/// A monitor is on the output that holds its middle; on the first where none does.
pub proof fn law_output_under(outputs: Seq<Output>, r: Rect, k: int)
    requires
        0 <= r.w,
        0 <= r.h,
        0 <= k < outputs.len(),
    ensures
        ({
            let mx = r.x + r.w as int / 2;
            let my = r.y + r.h as int / 2;
            let g = outputs[k].geo;
            let here = g.x <= mx < g.x + g.w && g.y <= my < g.y + g.h;
            let first = forall|i: int|
                0 <= i < k ==> !((#[trigger] outputs[i]).geo.x <= mx < outputs[i].geo.x + outputs[i].geo.w
                    && outputs[i].geo.y <= my < outputs[i].geo.y + outputs[i].geo.h);
            let nowhere = forall|i: int|
                0 <= i < outputs.len() ==> !((#[trigger] outputs[i]).geo.x <= mx < outputs[i].geo.x + outputs[i].geo.w
                    && outputs[i].geo.y <= my < outputs[i].geo.y + outputs[i].geo.h);
            &&& here && first ==> output_under(outputs, r) == Some(outputs[k].id)
            &&& nowhere ==> output_under(outputs, r) == Some(outputs[0].id)
        }),
{
    let mx = r.x + r.w as int / 2;
    let my = r.y + r.h as int / 2;
    lemma_output_place(outputs, mx, my);
    let p = output_place(outputs, mx, my);
    if p < outputs.len() {
        assert(in_rect(outputs[p].geo, mx, my));
    }
}

/// Monitors that are found anew are the outputs that have a size, from the left to the right;
/// they are then the user's own.
pub proof fn law_detected(w: World, i: int, j: int)
    requires
        0 <= i < j < sized(w.outputs).len(),
    ensures
        ({
            let v = detect_monitors(w).0;
            &&& v.desk.list.len() == sized(w.outputs).len()
            &&& v.desk.list[i].rect.x <= v.desk.list[j].rect.x
            &&& v.desk.list[i].rect.x == v.desk.list[j].rect.x ==> v.desk.list[i].rect.y <= v.desk.list[j].rect.y
            &&& !v.auto_monitors
        }),
{
    let rs = sized(w.outputs);
    crate::screen_laws::law_left_to_right(rs);
    let v = detect_monitors(w).0;
    assert(v.desk.list[i].rect == by_corner(rs)[i]);
    assert(v.desk.list[j].rect == by_corner(rs)[j]);
}

/// An output without a size is no monitor.
pub proof fn law_sized(outputs: Seq<Output>, o: Output)
    ensures
        o.geo.w > 0 && o.geo.h > 0 ==> sized(outputs.push(o)) == sized(outputs).push(o.geo),
        o.geo.w <= 0 || o.geo.h <= 0 ==> sized(outputs.push(o)) == sized(outputs),
        sized(Seq::empty()).len() == 0,
{
    assert(outputs.push(o).drop_last() =~= outputs);
}

/// A tag that has a monitor of its own is shown there, and the focus goes there with it.
pub proof fn law_tag_at_home(w: World, tag: TagId, i: usize)
    requires
        crate::table::keys_differ(w.tag_monitor),
        i < w.desk.list.len(),
        w.desk.list[i as int].locked_tag is None,
    ensures
        ({
            let v = set_tag_monitor(w, seq![show(tag as nat), show(i as nat)]).0;
            let u = use_tag(v, seq![show(tag as nat)]).0;
            &&& u.desk.focus == i
            &&& u.desk.list[i as int].tag == tag
            &&& u.focused_tag() == tag
        }),
{
    law_unsigned_round_trip(tag as nat, u32::MAX as int);
    law_by_number(w.desk.list, i as nat);
    law_put(w.tag_monitor, tag as u64, selector_text(show(i as nat)), tag as u64);
}

/// A window that rules make a bar takes no focus; one that they do not takes it where they
/// say so.
pub proof fn law_bar_takes_no_focus(w: World, x: Window)
    ensures
        ({
            let o = judged(w.rules, w.desk.list, x.app_id.deep_view(), x.title.deep_view(), x.tag);
            &&& o.dock is Some ==> !verdict(w, x).focus
            &&& o.dock is None ==> verdict(w, x).focus == o.focus
            &&& verdict(w, x).tag == o.tag && verdict(w, x).dock == o.dock && verdict(w, x).floating == o.floating
        }),
{
}

/// A bar that says nothing of its height has the usual one.
pub proof fn law_usual_bar(r: Rect, wanted: i32, anchor: DockAnchor)
    requires
        wanted <= 0,
        28 <= r.h,
        r.y + r.h <= i32::MAX,
    ensures
        dock_rect(r, anchor, wanted).h == 28,
{
}

} // verus!
