//! Where monitors and what is on them are: the room that is left on a monitor, which
//! monitor is meant, where a window and a bar go on it, what lies over what.

use vstd::prelude::*;
use crate::cmd_monitor::{move_monitor, pad, remove_monitor};
use crate::layout::{below, dock_rect, inset, Layer, RenderItem};
use crate::manage::inner_edges;
use crate::monitor::{find_screen, named_place, selector_text, shrink, Desk, Insets, Rect, Screen, TagId};
use crate::number::{law_show_reads_back, law_signed_round_trip, show, show_int};
use crate::outputs::{by_corner, corner_before, corner_place};
use crate::render::{border_of, dim_rect, drawn_at, hidden_of, seen, tile_count, wide};
use crate::rules::DockAnchor;
use crate::state::{Window, World};
use crate::text::Text;

verus! {

// --- room -------------------------------------------------------------------------------

/// What is left of a rectangle has each of its edges so far in as is kept free there.
pub proof fn law_padded(r: Rect, p: Insets)
    requires
        0 <= p.left && 0 <= p.right && 0 <= p.top && 0 <= p.bottom,
        p.left + p.right <= r.w,
        p.top + p.bottom <= r.h,
        r.x + r.w <= i32::MAX,
        r.y + r.h <= i32::MAX,
    ensures
        ({
            let s = shrink(r, p);
            &&& s.x == r.x + p.left
            &&& s.x + s.w == r.x + r.w - p.right
            &&& s.y == r.y + p.top
            &&& s.y + s.h == r.y + r.h - p.bottom
        }),
{
}

/// A gap round an area takes as much off at each of its edges.
pub proof fn law_gap_all_round(a: Rect, gap: int)
    requires
        0 <= gap,
        2 * gap <= a.w,
        2 * gap <= a.h,
        a.x + a.w <= i32::MAX,
        a.y + a.h <= i32::MAX,
    ensures
        ({
            let s = inset(a, gap);
            &&& s.x == a.x + gap && s.x + s.w == a.x + a.w - gap
            &&& s.y == a.y + gap && s.y + s.h == a.y + a.h - gap
        }),
{
}

/// The four numbers of `pad` are kept free at the top, the right, the bottom and the left
/// of the monitor, and all other monitors stay as they are.
pub proof fn law_pad(w: World, sel: Text, i: int, t: i32, r: i32, b: i32, l: i32)
    requires
        find_screen(w.desk.list, selector_text(sel)) == Some(i),
        0 <= i < w.desk.list.len(),
        0 <= t && 0 <= r && 0 <= b && 0 <= l,
        l + r <= w.desk.list[i].rect.w,
        t + b <= w.desk.list[i].rect.h,
        w.desk.list[i].rect.x + w.desk.list[i].rect.w <= i32::MAX,
        w.desk.list[i].rect.y + w.desk.list[i].rect.h <= i32::MAX,
    ensures
        ({
            let a = seq![
                sel,
                show_int(t as int),
                show_int(r as int),
                show_int(b as int),
                show_int(l as int),
            ];
            let v = pad(w, a).0;
            let m = v.desk.list[i];
            let s = shrink(m.rect, m.pad);
            &&& m.rect == w.desk.list[i].rect
            &&& s.y == m.rect.y + t
            &&& s.x + s.w == m.rect.x + m.rect.w - r
            &&& s.y + s.h == m.rect.y + m.rect.h - b
            &&& s.x == m.rect.x + l
            &&& v.desk.list.len() == w.desk.list.len()
            &&& forall|j: int|
                0 <= j < w.desk.list.len() && j != i ==> #[trigger] v.desk.list[j] == w.desk.list[j]
        }),
{
    law_signed_round_trip(t as int, i32::MIN as int, i32::MAX as int);
    law_signed_round_trip(r as int, i32::MIN as int, i32::MAX as int);
    law_signed_round_trip(b as int, i32::MIN as int, i32::MAX as int);
    law_signed_round_trip(l as int, i32::MIN as int, i32::MAX as int);
}

/// A window that starts to float without a place is in the middle of the focused monitor:
/// as far from its left edge as from its right, and from its top as from its bottom.
pub proof fn law_float_in_middle(w: World)
    requires
        w.focused_area().w >= 320,
        w.focused_area().h >= 240,
        w.focused_area().x + w.focused_area().w <= i32::MAX,
        w.focused_area().y + w.focused_area().h <= i32::MAX,
    ensures
        ({
            let a = w.focused_area();
            let g = w.default_float_geo();
            let left = g.x - a.x;
            let right = (a.x + a.w) - (g.x + g.w);
            let above = g.y - a.y;
            let under = (a.y + a.h) - (g.y + g.h);
            &&& 0 <= left && -2 <= left - right <= 2
            &&& 0 <= above && -2 <= above - under <= 2
            &&& 2 * g.w <= a.w <= 2 * g.w + 1
            &&& 2 * g.h <= a.h <= 2 * g.h + 1
        }),
{
}

// --- which monitor ----------------------------------------------------------------------

proof fn lemma_named(list: Seq<Screen>, name: Text)
    ensures
        0 <= named_place(list, name) <= list.len(),
        named_place(list, name) < list.len() ==> list[named_place(list, name)].name == Some(name),
        forall|j: int| 0 <= j < named_place(list, name) ==> (#[trigger] list[j]).name != Some(name),
    decreases list.len(),
{
    if list.len() > 0 && list[0].name != Some(name) {
        lemma_named(list.drop_first(), name);
        assert forall|j: int| 0 <= j < named_place(list, name) implies (#[trigger] list[j]).name != Some(name) by {
            if j > 0 {
                assert(list.drop_first()[j - 1] == list[j]);
            }
        }
    }
}

/// A number selects the monitor at that place of the list; where there is none, nothing.
pub proof fn law_by_number(list: Seq<Screen>, n: nat)
    requires
        n <= usize::MAX,
    ensures
        n < list.len() ==> find_screen(list, selector_text(show(n))) == Some(n as int),
        n >= list.len() ==> find_screen(list, selector_text(show(n))) is None,
{
    law_show_reads_back(n);
}

/// A name selects the first monitor that has it; where none has it, nothing.
pub proof fn law_by_name(list: Seq<Screen>, name: Text)
    requires
        !(name.len() > 0 && crate::number::all_digits(name)),
    ensures
        match find_screen(list, selector_text(name)) {
            Some(i) => 0 <= i < list.len() && list[i].name == Some(name) && forall|j: int|
                0 <= j < i ==> (#[trigger] list[j]).name != Some(name),
            None => forall|j: int| 0 <= j < list.len() ==> (#[trigger] list[j]).name != Some(name),
        },
{
    lemma_named(list, name);
}

/// One step on leads to the monitor behind, from the last to the first.
pub proof fn law_next_monitor(d: Desk)
    requires
        d.in_range(),
        d.list.len() > 0,
    ensures
        d.focus + 1 < d.list.len() ==> d.cycled(1).focus == d.focus + 1,
        d.focus + 1 == d.list.len() ==> d.cycled(1).focus == 0,
        0 < d.focus ==> d.cycled(-1).focus == d.focus - 1,
        d.cycled(1).list == d.list,
{
    let k = d.list.len() as int;
    vstd::arithmetic::div_mod::lemma_small_mod(d.focus as nat, k as nat);
    if d.focus + 1 < k {
        vstd::arithmetic::div_mod::lemma_small_mod((d.focus + 1) as nat, k as nat);
    } else {
        vstd::arithmetic::div_mod::lemma_mod_self_0(k);
    }
    if 0 < d.focus {
        vstd::arithmetic::div_mod::lemma_small_mod((d.focus - 1) as nat, k as nat);
    }
}

/// A tag is shown on the focused monitor alone, unless that is locked to another.
pub proof fn law_shown_on_focused(d: Desk, tag: TagId)
    requires
        0 <= d.focus < d.list.len(),
    ensures
        ({
            let e = d.show(tag);
            let lock = d.list[d.focus].locked_tag;
            &&& e.focus == d.focus && e.list.len() == d.list.len()
            &&& (lock is None || lock == Some(tag)) <==> (e.list[d.focus].tag == tag && (lock is None || lock
                == Some(tag)))
            &&& lock is None ==> e.list[d.focus].tag == tag
            &&& lock is Some && lock != Some(tag) ==> e == d
            &&& e.list[d.focus].rect == d.list[d.focus].rect && e.list[d.focus].z == d.list[d.focus].z
            &&& forall|j: int| 0 <= j < d.list.len() && j != d.focus ==> #[trigger] e.list[j] == d.list[j]
        }),
{
}

/// A monitor that is taken away is the one that was selected; the others keep their order,
/// and the focus stays at its place of the list while that has one.
pub proof fn law_monitor_gone(w: World, sel: Text, i: int)
    requires
        find_screen(w.desk.list, selector_text(sel)) == Some(i),
        0 <= i < w.desk.list.len(),
    ensures
        ({
            let v = remove_monitor(w, seq![sel]).0;
            &&& v.desk.list == w.desk.list.take(i) + w.desk.list.skip(i + 1)
            &&& w.desk.focus + 1 < w.desk.list.len() ==> v.desk.focus == w.desk.focus
            &&& v.windows == w.windows && v.trees == w.trees
        }),
{
    assert(w.desk.list.remove(i) =~= w.desk.list.take(i) + w.desk.list.skip(i + 1));
}

/// A monitor that is moved gets the rectangle and keeps all else; the others stay.
pub proof fn law_monitor_moved(w: World, sel: Text, i: int, r: Rect)
    requires
        find_screen(w.desk.list, selector_text(sel)) == Some(i),
        0 <= i < w.desk.list.len(),
        r.h >= 0,
    ensures
        ({
            let v = move_monitor(w, seq![sel, crate::monitor::show_rect(r)]).0;
            &&& v.desk.list[i] == (Screen { rect: r, ..w.desk.list[i] })
            &&& v.desk.list.len() == w.desk.list.len()
            &&& forall|j: int|
                0 <= j < w.desk.list.len() && j != i ==> #[trigger] v.desk.list[j] == w.desk.list[j]
        }),
{
    crate::monitor::law_rect_round_trip(r);
}

proof fn lemma_corner_place(rs: Seq<Rect>, r: Rect)
    ensures
        0 <= corner_place(rs, r) <= rs.len(),
        corner_place(rs, r) < rs.len() ==> corner_before(r, rs[corner_place(rs, r)]),
        forall|j: int| 0 <= j < corner_place(rs, r) ==> !corner_before(r, #[trigger] rs[j]),
    decreases rs.len(),
{
    if rs.len() > 0 && !corner_before(r, rs[0]) {
        lemma_corner_place(rs.drop_first(), r);
        assert forall|j: int| 0 <= j < corner_place(rs, r) implies !corner_before(r, #[trigger] rs[j]) by {
            if j > 0 {
                assert(rs.drop_first()[j - 1] == rs[j]);
            }
        }
    }
}

/// Monitors that follow the outputs are numbered from the left to the right, and those at
/// one column from the top to the bottom.
pub proof fn law_left_to_right(rs: Seq<Rect>)
    ensures
        by_corner(rs).len() == rs.len(),
        forall|i: int, j: int|
            0 <= i < j < rs.len() ==> (#[trigger] by_corner(rs)[i]).x <= (#[trigger] by_corner(rs)[j]).x,
        forall|i: int, j: int|
            0 <= i < j < rs.len() && (#[trigger] by_corner(rs)[i]).x == (#[trigger] by_corner(rs)[j]).x
                ==> by_corner(rs)[i].y <= by_corner(rs)[j].y,
    decreases rs.len(),
{
    if rs.len() > 0 {
        let front = by_corner(rs.drop_last());
        law_left_to_right(rs.drop_last());
        lemma_corner_place(front, rs.last());
        let p = corner_place(front, rs.last());
        let all = by_corner(rs);
        assert forall|i: int, j: int| 0 <= i < j < rs.len() implies !corner_before(
            #[trigger] all[j],
            #[trigger] all[i],
        ) by {
            let a = if i < p {
                i
            } else {
                i - 1
            };
            let b = if j < p {
                j
            } else {
                j - 1
            };
            if i == p {
                assert(all[j] == front[b]);
                if b > p {
                    assert(front[p].x <= front[b].x);
                }
            } else if j == p {
                assert(all[i] == front[i]);
            } else {
                assert(all[i] == front[a] && all[j] == front[b]);
            }
        }
        assert forall|i: int, j: int| 0 <= i < j < rs.len() implies (#[trigger] all[i]).x <= (#[trigger] all[j]).x by {
            assert(!corner_before(all[j], all[i]));
        }
        assert forall|i: int, j: int|
            0 <= i < j < rs.len() && (#[trigger] all[i]).x == (#[trigger] all[j]).x implies all[i].y <= all[j].y by {
            assert(!corner_before(all[j], all[i]));
        }
    }
}

// --- windows and bars -------------------------------------------------------------------

/// A bar is as wide as its monitor, lies at the edge that it is anchored to, and is as high
/// as it wants to be where that is no higher than the monitor.
pub proof fn law_bar_at_edge(r: Rect, wanted: i32)
    requires
        1 <= r.h,
        r.y + r.h <= i32::MAX,
    ensures
        ({
            let top = dock_rect(r, DockAnchor::Top, wanted);
            let bottom = dock_rect(r, DockAnchor::Bottom, wanted);
            &&& top.x == r.x && top.w == r.w && bottom.x == r.x && bottom.w == r.w
            &&& top.y == r.y
            &&& bottom.y + bottom.h == r.y + r.h
            &&& 1 <= top.h <= r.h && bottom.h == top.h
            &&& 0 < wanted <= r.h ==> top.h == wanted
        }),
{
}

/// A window that keeps its own size is in the middle of its place, and any other in its
/// corner.
pub proof fn law_in_middle(w: World, it: RenderItem)
    requires
        it.rect.x + it.rect.w <= i32::MAX,
        it.rect.y + it.rect.h <= i32::MAX,
        0 < w.win(it.win).dims.0 <= it.rect.w,
        0 < w.win(it.win).dims.1 <= it.rect.h,
    ensures
        ({
            let x = w.win(it.win);
            let at = drawn_at(w, it);
            if x.pseudotile && !w.floats(x) {
                let left = at.0 - it.rect.x;
                let right = (it.rect.x + it.rect.w) - (at.0 + x.dims.0);
                let above = at.1 - it.rect.y;
                let under = (it.rect.y + it.rect.h) - (at.1 + x.dims.1);
                0 <= left && 0 <= right - left <= 1 && 0 <= above && 0 <= under - above <= 1
            } else {
                at == (it.rect.x, it.rect.y)
            }
        }),
{
}

/// The edges of a window that others can lie at are those that are not at the edge of the
/// area: none where it fills the area.
pub proof fn law_inner_edges(r: Rect, area: Rect)
    requires
        area.x <= r.x,
        area.y <= r.y,
        r.x + r.w <= area.x + area.w,
        r.y + r.h <= area.y + area.h,
    ensures
        ({
            let e = inner_edges(r, area);
            &&& e.left == (r.x != area.x)
            &&& e.right == (r.x + r.w != area.x + area.w)
            &&& e.top == (r.y != area.y)
            &&& e.bottom == (r.y + r.h != area.y + area.h)
        }),
{
}

/// On a monitor, floating windows lie over those in frames, bars over both, and a window
/// that fills the monitor over all; of two in one layer, the one that was raised later lies
/// over the other. No window lies below itself, nor do two below each other.
pub proof fn law_layers(a: RenderItem, b: RenderItem)
    ensures
        a.layer == Layer::Tiled && b.layer != Layer::Tiled ==> below(a, b),
        a.layer != Layer::Fullscreen && b.layer == Layer::Fullscreen ==> below(a, b),
        a.layer == Layer::Floating && b.layer == Layer::Dock ==> below(a, b),
        a.layer == b.layer ==> below(a, b) == (a.seq < b.seq),
        below(a, b) ==> !below(b, a),
{
}

/// The border of a window has the colour of the focus exactly where it has that, else that
/// of urgency where it is urgent, and is as wide as is set; a window that fills its monitor
/// has none, nor a bar.
pub proof fn law_border(w: World, items: Seq<RenderItem>, it: RenderItem)
    ensures
        ({
            let b = border_of(w, items, it);
            &&& b is Some ==> b->0.width == w.settings.border_width
            &&& b is Some && w.focused_window() == Some(it.win) ==> b->0.color == wide(w.settings.border_active)
            &&& b is Some && w.focused_window() != Some(it.win) && w.win(it.win).urgent ==> b->0.color == wide(
                w.settings.border_urgent,
            )
            &&& b is Some && w.focused_window() != Some(it.win) && !w.win(it.win).urgent ==> b->0.color == wide(
                w.settings.border_normal,
            )
            &&& it.layer == Layer::Fullscreen || it.layer == Layer::Dock ==> b is None
            &&& w.settings.border_width <= 0 ==> b is None
            &&& w.settings.border_width > 0 && it.layer == Layer::Floating ==> b is Some
            &&& w.settings.border_width > 0 && it.layer == Layer::Tiled && !w.settings.smart_window_surroundings
                ==> b is Some
        }),
{
}

/// A window that has the focus is never darkened. Any other is where it is seen and does
/// not fill its monitor, at the place where it is.
pub proof fn law_dim(items: Seq<RenderItem>, focused: Option<u64>, id: u64)
    ensures
        focused == Some(id) ==> dim_rect(items, focused, id) is None,
        focused != Some(id) ==> (dim_rect(items, focused, id) is Some <==> exists|i: int|
            0 <= i < items.len() && (#[trigger] items[i]).win == id && items[i].visible && items[i].layer
                != Layer::Fullscreen),
        dim_rect(items, focused, id) is Some ==> exists|i: int|
            0 <= i < items.len() && (#[trigger] items[i]).win == id && items[i].visible && items[i].rect
                == dim_rect(items, focused, id)->0,
    decreases items.len(),
{
    if items.len() > 0 {
        let front = items.drop_last();
        law_dim(front, focused, id);
        let it = items.last();
        assert(items[items.len() - 1] == it);
        if focused != Some(id) {
            if exists|i: int|
                0 <= i < items.len() && (#[trigger] items[i]).win == id && items[i].visible && items[i].layer
                    != Layer::Fullscreen {
                let i = choose|i: int|
                    0 <= i < items.len() && (#[trigger] items[i]).win == id && items[i].visible && items[i].layer
                        != Layer::Fullscreen;
                if i < front.len() {
                    assert(front[i] == items[i]);
                }
            }
            if dim_rect(front, focused, id) is Some {
                let i = choose|i: int|
                    0 <= i < front.len() && (#[trigger] front[i]).win == id && front[i].visible && front[i].rect
                        == dim_rect(front, focused, id)->0;
                assert(items[i] == front[i]);
                let k = choose|k: int|
                    0 <= k < front.len() && (#[trigger] front[k]).win == id && front[k].visible && front[k].layer
                        != Layer::Fullscreen;
                assert(items[k] == front[k]);
            }
        }
    }
}

/// The windows that are hidden are those that are nowhere seen.
pub proof fn law_hidden(items: Seq<RenderItem>, ws: Seq<Window>)
    ensures
        forall|i: int|
            0 <= i < ws.len() ==> (hidden_of(items, ws).contains((#[trigger] ws[i]).id) <==> !seen(items, ws[i].id)),
        forall|k: int| 0 <= k < hidden_of(items, ws).len() ==> !seen(items, #[trigger] hidden_of(items, ws)[k]),
    decreases ws.len(),
{
    if ws.len() > 0 {
        let front = ws.drop_last();
        law_hidden(items, front);
        let before = hidden_of(items, front);
        let all = hidden_of(items, ws);
        assert forall|k: int| 0 <= k < all.len() implies !seen(items, #[trigger] all[k]) by {
            if k < before.len() {
                assert(all[k] == before[k]);
            }
        }
        assert forall|i: int| 0 <= i < ws.len() implies (all.contains((#[trigger] ws[i]).id) <==> !seen(
            items,
            ws[i].id,
        )) by {
            if !seen(items, ws[i].id) {
                if i < front.len() {
                    assert(front[i] == ws[i]);
                    let k = choose|k: int| 0 <= k < before.len() && before[k] == ws[i].id;
                    assert(all[k] == ws[i].id);
                } else {
                    assert(all[all.len() - 1] == ws[i].id);
                }
            }
        }
    }
}

proof fn lemma_tile_count(items: Seq<RenderItem>, mon: usize, i: int)
    requires
        0 <= i < items.len(),
        items[i].visible,
        items[i].layer == Layer::Tiled,
        items[i].mon == mon,
    ensures
        tile_count(items, mon) >= 1,
        tile_count(items, mon) == 1 <==> forall|j: int|
            0 <= j < items.len() && j != i ==> !((#[trigger] items[j]).visible && items[j].layer == Layer::Tiled
                && items[j].mon == mon),
    decreases items.len(),
{
    let front = items.drop_last();
    if i == items.len() - 1 {
        lemma_no_tiles(front, mon);
        if tile_count(front, mon) == 0 {
            assert forall|j: int| 0 <= j < items.len() && j != i implies !((#[trigger] items[j]).visible && items[j].layer
                == Layer::Tiled && items[j].mon == mon) by {
                assert(front[j] == items[j]);
            }
        } else {
            let j = choose|j: int|
                0 <= j < front.len() && (#[trigger] front[j]).visible && front[j].layer == Layer::Tiled && front[j].mon == mon;
            assert(items[j] == front[j]);
        }
    } else {
        assert(front[i] == items[i]);
        lemma_tile_count(front, mon, i);
        let last = items.last();
        if last.visible && last.layer == Layer::Tiled && last.mon == mon {
            assert(items[items.len() - 1] == last);
        } else if tile_count(front, mon) == 1 {
            assert forall|j: int| 0 <= j < items.len() && j != i implies !((#[trigger] items[j]).visible && items[j].layer
                == Layer::Tiled && items[j].mon == mon) by {
                if j < front.len() {
                    assert(front[j] == items[j]);
                }
            }
        } else {
            let j = choose|j: int|
                0 <= j < front.len() && j != i && (#[trigger] front[j]).visible && front[j].layer == Layer::Tiled
                    && front[j].mon == mon;
            assert(items[j] == front[j]);
        }
    }
}

proof fn lemma_no_tiles(items: Seq<RenderItem>, mon: usize)
    ensures
        tile_count(items, mon) == 0 <==> forall|j: int|
            0 <= j < items.len() ==> !((#[trigger] items[j]).visible && items[j].layer == Layer::Tiled && items[j].mon == mon),
    decreases items.len(),
{
    if items.len() > 0 {
        let front = items.drop_last();
        lemma_no_tiles(front, mon);
        let last = items.last();
        assert(items[items.len() - 1] == last);
        if tile_count(items, mon) == 0 {
            assert forall|j: int| 0 <= j < items.len() implies !((#[trigger] items[j]).visible && items[j].layer
                == Layer::Tiled && items[j].mon == mon) by {
                if j < front.len() {
                    assert(front[j] == items[j]);
                }
            }
        } else if tile_count(front, mon) != 0 {
            let j = choose|j: int|
                0 <= j < front.len() && (#[trigger] front[j]).visible && front[j].layer == Layer::Tiled && front[j].mon == mon;
            assert(items[j] == front[j]);
        }
    }
}

/// A window in a frame has no border where that is wanted of one that is the only one to be
/// seen in the frames of its monitor; beside another it has one.
pub proof fn law_border_alone(w: World, items: Seq<RenderItem>, i: int)
    requires
        0 <= i < items.len(),
        items[i].visible,
        items[i].layer == Layer::Tiled,
        w.settings.border_width > 0,
        w.settings.smart_window_surroundings,
    ensures
        border_of(w, items, items[i]) is None <==> forall|j: int|
            0 <= j < items.len() && j != i ==> !((#[trigger] items[j]).visible && items[j].layer == Layer::Tiled
                && items[j].mon == items[i].mon),
{
    lemma_tile_count(items, items[i].mon, i);
}

} // verus!
