//! What a pass tells the windows, and what becomes of a window that comes, changes or goes.

use vstd::prelude::*;
use crate::attr::without_prefix;
use crate::cmd_window::focus_win;
use crate::events::{fresh_window, pointer_entered};
use crate::frame::WinId;
use crate::layout::{Layer, RenderItem};
use crate::manage::{
    all_readied, bare_orders, close_orders, exit_orders, fills, float_seed, item_told, items_told, keyboard, managed,
    Edges, Focus, Order,
};
use crate::outputs::output_under;
use crate::rule_laws::lemma_found;
use crate::state::{lemma_win_place, Window, World};
use crate::table::value_of;
use crate::text::{has_prefix, Text};

verus! {

// --- the keyboard -----------------------------------------------------------------------

/// An open menu has the keyboard, or else an open launcher, or else the focused window; and
/// this is what a pass ends with.
pub proof fn law_keyboard(w: World)
    ensures
        w.tray_menu is Some ==> keyboard(w) == Focus::Menu,
        w.tray_menu is None && w.launcher is Some ==> keyboard(w) == Focus::Launcher,
        w.tray_menu is None && w.launcher is None && w.focused_window() is None ==> keyboard(w) == Focus::Nothing,
        w.tray_menu is None && w.launcher is None && w.focused_window() is Some && w.has_win(w.focused_window()->0)
            ==> keyboard(w) == Focus::Window(w.focused_window()->0),
        managed(w).1.len() > 0 && managed(w).1.last() is SetFocus,
{
}

// --- places told ------------------------------------------------------------------------

/// A window is told the size of its place; one that keeps its own size is asked to choose
/// it. One that floats or is a bar has no edges that others lie at.
pub proof fn law_told_size(w: World, it: RenderItem)
    requires
        w.has_win(it.win),
        it.layer != Layer::Fullscreen,
    ensures
        ({
            let x = w.win(it.win);
            let orders = item_told(w, it).1;
            let none = Edges { top: false, bottom: false, left: false, right: false };
            &&& !x.pseudotile ==> orders.contains(Order::Propose { win: it.win, w: it.rect.w, h: it.rect.h })
            &&& x.pseudotile ==> orders.contains(Order::Propose { win: it.win, w: 0, h: 0 })
            &&& x.pseudotile || w.floats(x) || x.dock is Some ==> orders.contains(
                Order::SetTiled { win: it.win, edges: none },
            )
            &&& x.applied_fullscreen <==> orders[0] == Order::ExitFullscreen(it.win)
            &&& !item_told(w, it).0.win(it.win).applied_fullscreen
            &&& !orders.contains(Order::Close(it.win))
        }),
{
    lemma_win_place(w.windows, it.win);
    let x = w.win(it.win);
    lemma_found(w, it.win, Window { applied_fullscreen: false, ..x });
    let orders = item_told(w, it).1;
    let n = orders.len() as int;
    assert(n >= 2);
    assert(orders[n - 2] is Propose);
    assert(orders[n - 1] is SetTiled);
    if x.pseudotile {
        assert(orders[n - 2] == (Order::Propose { win: it.win, w: 0, h: 0 }));
    } else {
        assert(orders[n - 2] == (Order::Propose { win: it.win, w: it.rect.w, h: it.rect.h }));
    }
    if x.pseudotile || w.floats(x) || x.dock is Some {
        assert(orders[n - 1] == (Order::SetTiled {
            win: it.win,
            edges: Edges { top: false, bottom: false, left: false, right: false },
        }));
    }
    assert forall|i: int| 0 <= i < n implies orders[i] != Order::Close(it.win) by {
        if n == 3 && i == 0 {
            assert(orders[0] == Order::ExitFullscreen(it.win));
        }
    }
}

/// A window that is to fill its monitor is told so once, for the output there.
pub proof fn law_told_fullscreen(w: World, it: RenderItem)
    requires
        w.has_win(it.win),
        it.layer == Layer::Fullscreen,
        0 <= it.mon < w.desk.list.len(),
        output_under(w.outputs, w.desk.list[it.mon as int].rect) is Some,
    ensures
        ({
            let (v, orders) = item_told(w, it);
            let output = output_under(w.outputs, w.desk.list[it.mon as int].rect)->0;
            &&& !w.win(it.win).applied_fullscreen ==> orders == seq![Order::Fullscreen { win: it.win, output }]
            &&& v.win(it.win).applied_fullscreen
            &&& item_told(v, it) == (v, Seq::<Order>::empty())
        }),
{
    lemma_win_place(w.windows, it.win);
    lemma_found(w, it.win, Window { applied_fullscreen: true, ..w.win(it.win) });
}

/// Windows are told one after the other; one that others of its frame cover is told
/// nothing.
pub proof fn law_told_in_turn(w: World, items: Seq<RenderItem>, it: RenderItem)
    ensures
        ({
            let (v, before) = items_told(w, items);
            let (u, now) = items_told(w, items.push(it));
            &&& it.visible ==> u == item_told(v, it).0 && now == before + item_told(v, it).1
            &&& !it.visible && it.layer != Layer::Fullscreen ==> u == v && now == before
            &&& items_told(w, Seq::empty()) == (w, Seq::<Order>::empty())
        }),
{
    assert(items.push(it).drop_last() =~= items);
}

/// A window is told that it no longer fills its monitor where it was told that it did and
/// does not any more, and else not.
pub proof fn law_exit_told(ws: Seq<Window>, items: Seq<RenderItem>, i: int)
    requires
        0 <= i < ws.len(),
    ensures
        ws[i].applied_fullscreen && !fills(items, ws[i].id) ==> exit_orders(ws, items).contains(
            Order::ExitFullscreen(ws[i].id),
        ),
        forall|k: int|
            0 <= k < exit_orders(ws, items).len() ==> ({
                let o = #[trigger] exit_orders(ws, items)[k];
                o is ExitFullscreen && !fills(items, o->ExitFullscreen_0)
            }),
    decreases ws.len(),
{
    let front = ws.drop_last();
    let before = exit_orders(front, items);
    let now = exit_orders(ws, items);
    if front.len() > 0 {
        let j = if i < front.len() {
            i
        } else {
            0
        };
        law_exit_told(front, items, j);
        if i < front.len() {
            assert(front[i] == ws[i]);
            if ws[i].applied_fullscreen && !fills(items, ws[i].id) {
                let k = choose|k: int| 0 <= k < before.len() && before[k] == Order::ExitFullscreen(ws[i].id);
                assert(now[k] == before[k]);
            }
        }
    }
    if i == ws.len() - 1 && ws[i].applied_fullscreen && !fills(items, ws[i].id) {
        assert(now[now.len() - 1] == Order::ExitFullscreen(ws[i].id));
    }
    assert forall|k: int| 0 <= k < now.len() implies ({
        let o = #[trigger] now[k];
        o is ExitFullscreen && !fills(items, o->ExitFullscreen_0)
    }) by {
        if k < before.len() {
            assert(now[k] == before[k]);
        }
    }
}

/// The windows that are to be closed are told so, each in its turn, but for those that are
/// gone already.
pub proof fn law_close_told(w: World, ids: Seq<WinId>, id: WinId)
    ensures
        w.has_win(id) ==> close_orders(w, ids.push(id)) == close_orders(w, ids).push(Order::Close(id)),
        !w.has_win(id) ==> close_orders(w, ids.push(id)) == close_orders(w, ids),
        close_orders(w, Seq::empty()).len() == 0,
{
    assert(ids.push(id).drop_last() =~= ids);
}

/// A window is told once to draw no decoration.
pub proof fn law_bare_told(ws: Seq<Window>, x: Window)
    ensures
        !x.ssd_applied ==> bare_orders(ws.push(x)) == bare_orders(ws).push(Order::UseSsd(x.id)),
        x.ssd_applied ==> bare_orders(ws.push(x)) == bare_orders(ws),
        bare_orders(Seq::empty()).len() == 0,
{
    assert(ws.push(x).drop_last() =~= ws);
}

/// A window of a tag that floats has a place to float at; all else of a window stays, and a
/// place that it has.
pub proof fn law_readied(w: World, i: int)
    requires
        0 <= i < w.windows.len(),
    ensures
        ({
            let x = w.windows[i];
            let y = all_readied(w).windows[i];
            &&& y.ssd_applied
            &&& y == (Window { ssd_applied: true, float_geo: y.float_geo, ..x })
            &&& !w.floating_tags.contains(x.tag) ==> y.float_geo == x.float_geo
            &&& x.float_geo.w > 0 && x.float_geo.h > 0 ==> y.float_geo == x.float_geo
            &&& w.floating_tags.contains(x.tag) && x.float_geo.w <= 0 ==> y.float_geo == float_seed(w, x.id)
            &&& w.floating_tags.contains(x.tag) && x.float_geo.h <= 0 ==> y.float_geo == float_seed(w, x.id)
            &&& value_of(w.last_rects, x.id) is Some && value_of(w.last_rects, x.id)->0.w > 0 && value_of(
                w.last_rects,
                x.id,
            )->0.h > 0 ==> float_seed(w, x.id) == value_of(w.last_rects, x.id)->0
            &&& value_of(w.last_rects, x.id) is None ==> float_seed(w, x.id) == w.default_float_geo()
        }),
{
}

// --- windows that come, change and go ---------------------------------------------------

/// A window starts on its tag with nothing set of it.
pub proof fn law_fresh(id: WinId, tag: u32)
    ensures
        ({
            let x = fresh_window(id, tag);
            &&& x.id == id && x.tag == tag
            &&& !x.floating && !x.fullscreen && !x.pseudotile && !x.urgent && x.dock is None
            &&& !x.applied_fullscreen && !x.ssd_applied && !x.rules_applied
            &&& x.app_id is None && x.title is None && x.raise_seq == 0
            &&& x.float_geo.w <= 0 && x.float_geo.h <= 0
        }),
{
}

/// The pointer over a window gives it the focus only where the focus follows the pointer;
/// which window it is over is known either way.
pub proof fn law_pointer_over(w: World, id: WinId)
    ensures
        w.settings.focus_follows_mouse ==> pointer_entered(w, Some(id)) == focus_win(
            World { pointer_focus: Some(id), ..w },
            id,
        ).manage(),
        !w.settings.focus_follows_mouse ==> pointer_entered(w, Some(id)) == (World { pointer_focus: Some(id), ..w }),
        pointer_entered(w, None) == (World { pointer_focus: None, ..w }),
{
}

/// With a window go the attributes that a user gave it, and those of no other.
pub proof fn law_attributes_gone(attrs: Seq<(Text, Text)>, pre: Text, key: Text, value: Text)
    ensures
        has_prefix(key, pre) ==> without_prefix(attrs.push((key, value)), pre) == without_prefix(attrs, pre),
        !has_prefix(key, pre) ==> without_prefix(attrs.push((key, value)), pre) == without_prefix(attrs, pre).push(
            (key, value),
        ),
        without_prefix(Seq::empty(), pre).len() == 0,
{
    assert(attrs.push((key, value)).drop_last() =~= attrs);
}

} // verus!
