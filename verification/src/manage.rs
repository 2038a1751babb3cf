//! What the display is told each time that windows are managed.

use vstd::prelude::*;
use crate::frame::WinId;
use crate::layout::{layout, Layer, RenderItem};
use crate::monitor::{shrink, Rect};
use crate::outputs::output_under;
use crate::state::{lemma_mapped_wf, lemma_win_place, win_place, PointerOp, State, Window, World};
use crate::table::{find_key, value_of};

verus! {

/// Edges of a window.
#[derive(Clone, Copy, Debug, PartialEq, Eq, Structural)]
pub struct Edges {
    pub top: bool,
    pub bottom: bool,
    pub left: bool,
    pub right: bool,
}

/// What has the keyboard.
#[derive(Clone, Copy, Debug, PartialEq, Eq, Structural)]
pub enum Focus {
    Menu,
    Launcher,
    Window(WinId),
    Nothing,
}

/// Something that the display is told.
#[derive(Clone, Copy, Debug, PartialEq, Eq, Structural)]
pub enum Order {
    /// That a window draws no decoration.
    UseSsd(WinId),
    /// That the bindings made since the last time hold.
    EnableBindings,
    /// To close a window.
    Close(WinId),
    /// That a seat moves or resizes a window.
    StartOp(usize),
    /// That it does so no more.
    EndOp(usize),
    /// That a window fills an output.
    Fullscreen { win: WinId, output: u64 },
    /// That it does so no more.
    ExitFullscreen(WinId),
    /// The size that a window is to have; zero where it is to choose.
    Propose { win: WinId, w: i32, h: i32 },
    /// The edges of a window that others lie at.
    SetTiled { win: WinId, edges: Edges },
    /// What has the keyboard of every seat.
    SetFocus(Focus),
}

// --- windows before they are laid out -----------------------------------------------------

/// The windows that are to draw no decoration, and were not told so yet.
pub open spec fn bare_orders(ws: Seq<Window>) -> Seq<Order>
    decreases ws.len(),
{
    if ws.len() == 0 {
        Seq::empty()
    } else if ws.last().ssd_applied {
        bare_orders(ws.drop_last())
    } else {
        bare_orders(ws.drop_last()).push(Order::UseSsd(ws.last().id))
    }
}

/// Where a window floats that was given no place: where it was last, or else in the
/// middle of the focused monitor.
pub open spec fn float_seed(w: World, id: WinId) -> Rect {
    match value_of(w.last_rects, id) {
        Some(r) => if r.w > 0 && r.h > 0 {
            r
        } else {
            w.default_float_geo()
        },
        None => w.default_float_geo(),
    }
}

/// A window made ready: told of its decoration, and given a place to float at where its
/// tag floats and it has none.
pub open spec fn readied(w: World, x: Window) -> Window {
    Window {
        ssd_applied: true,
        float_geo: if w.floating_tags.contains(x.tag) && (x.float_geo.w <= 0 || x.float_geo.h <= 0) {
            float_seed(w, x.id)
        } else {
            x.float_geo
        },
        ..x
    }
}

/// All windows made ready.
pub open spec fn all_readied(w: World) -> World {
    World { windows: w.windows.map_values(|x: Window| readied(w, x)), ..w }
}

/// The windows to be closed that there are.
pub open spec fn close_orders(w: World, ids: Seq<WinId>) -> Seq<Order>
    decreases ids.len(),
{
    if ids.len() == 0 {
        Seq::empty()
    } else if w.has_win(ids.last()) {
        close_orders(w, ids.drop_last()).push(Order::Close(ids.last()))
    } else {
        close_orders(w, ids.drop_last())
    }
}

/// Where a window is when it starts to be moved.
pub open spec fn op_geo(w: World, id: WinId) -> Rect {
    match value_of(w.last_rects, id) {
        Some(r) => r,
        None => Rect { x: w.pointer_pos.0, y: w.pointer_pos.1, w: 320, h: 240 },
    }
}

/// Seats start to move or resize the window under the pointer, where there is one.
pub open spec fn ops_started(w: World, starts: Seq<(usize, bool)>) -> (World, Seq<Order>)
    decreases starts.len(),
{
    if starts.len() == 0 {
        (w, Seq::empty())
    } else {
        let (v, orders) = ops_started(w, starts.drop_last());
        match v.pointer_focus {
            None => (v, orders),
            Some(id) => (
                World {
                    op: Some(
                        PointerOp { win: id, resize: starts.last().1, start_geo: op_geo(v, id) },
                    ),
                    ..v.make_floating(id, op_geo(v, id))
                },
                orders.push(Order::StartOp(starts.last().0)),
            ),
        }
    }
}

/// Seats end it.
pub open spec fn ops_ended(w: World, ends: Seq<usize>) -> (World, Seq<Order>) {
    (
        if ends.len() > 0 {
            World { op: None, ..w }
        } else {
            w
        },
        ends.map_values(|s: usize| Order::EndOp(s)),
    )
}

// --- windows as they are laid out ---------------------------------------------------------

/// The edges of a rectangle that lie inside an area.
pub open spec fn inner_edges(r: Rect, area: Rect) -> Edges {
    Edges {
        top: r.y > area.y,
        bottom: r.y + r.h < area.y + area.h,
        left: r.x > area.x,
        right: r.x + r.w < area.x + area.w,
    }
}

/// No edges.
pub open spec fn no_edges() -> Edges {
    Edges { top: false, bottom: false, left: false, right: false }
}

/// A window told where it is.
pub open spec fn item_told(w: World, it: RenderItem) -> (World, Seq<Order>) {
    let m = w.desk.list[it.mon as int];
    if !w.has_win(it.win) {
        (w, Seq::empty())
    } else {
        let x = w.win(it.win);
        if it.layer == Layer::Fullscreen {
            match output_under(w.outputs, m.rect) {
                Some(output) => if x.applied_fullscreen {
                    (w, Seq::empty())
                } else {
                    (
                        w.with_win(it.win, Window { applied_fullscreen: true, ..x }),
                        seq![Order::Fullscreen { win: it.win, output }],
                    )
                },
                None => (w, Seq::empty()),
            }
        } else {
            let exit = if x.applied_fullscreen {
                seq![Order::ExitFullscreen(it.win)]
            } else {
                Seq::empty()
            };
            let size = if x.pseudotile {
                seq![
                    Order::Propose { win: it.win, w: 0, h: 0 },
                    Order::SetTiled { win: it.win, edges: no_edges() },
                ]
            } else {
                seq![
                    Order::Propose { win: it.win, w: it.rect.w, h: it.rect.h },
                    Order::SetTiled {
                        win: it.win,
                        edges: if w.floats(x) || x.dock is Some {
                            no_edges()
                        } else {
                            inner_edges(it.rect, shrink(m.rect, m.pad))
                        },
                    },
                ]
            };
            (w.with_win(it.win, Window { applied_fullscreen: false, ..x }), exit + size)
        }
    }
}

/// Windows told where they are, but for those that others of their frame cover.
pub open spec fn items_told(w: World, items: Seq<RenderItem>) -> (World, Seq<Order>)
    decreases items.len(),
{
    if items.len() == 0 {
        (w, Seq::empty())
    } else {
        let (v, orders) = items_told(w, items.drop_last());
        let it = items.last();
        if it.visible || it.layer == Layer::Fullscreen {
            let (u, more) = item_told(v, it);
            (u, orders + more)
        } else {
            (v, orders)
        }
    }
}

/// Whether a window fills its monitor in a layout.
pub open spec fn fills(items: Seq<RenderItem>, id: WinId) -> bool {
    exists|i: int|
        0 <= i < items.len() && (#[trigger] items[i]).win == id && items[i].layer
            == Layer::Fullscreen
}

/// The windows that no longer fill their monitor told so.
pub open spec fn exit_orders(ws: Seq<Window>, items: Seq<RenderItem>) -> Seq<Order>
    decreases ws.len(),
{
    if ws.len() == 0 {
        Seq::empty()
    } else if ws.last().applied_fullscreen && !fills(items, ws.last().id) {
        exit_orders(ws.drop_last(), items).push(Order::ExitFullscreen(ws.last().id))
    } else {
        exit_orders(ws.drop_last(), items)
    }
}

/// A window that no longer fills its monitor.
pub open spec fn let_go(x: Window, items: Seq<RenderItem>) -> Window {
    if fills(items, x.id) {
        x
    } else {
        Window { applied_fullscreen: false, ..x }
    }
}

/// What has the keyboard: the menu, or the launcher, or the focused window.
pub open spec fn keyboard(w: World) -> Focus {
    if w.tray_menu is Some {
        Focus::Menu
    } else if w.launcher is Some {
        Focus::Launcher
    } else {
        match w.focused_window() {
            Some(id) => if w.has_win(id) {
                Focus::Window(id)
            } else {
                Focus::Nothing
            },
            None => Focus::Nothing,
        }
    }
}

/// The first half of a pass: windows made ready, closed, and moved with the pointer.
pub open spec fn first_half(w: World) -> (World, Seq<Order>) {
    let v1 = all_readied(w);
    let o1 = bare_orders(w.windows).push(Order::EnableBindings) + close_orders(v1, w.pending_close);
    let v2 = World { pending_close: Seq::empty(), ..v1 };
    let (v3, o3) = ops_started(World { pending_op_start: Seq::empty(), ..v2 }, w.pending_op_start);
    let (v4, o4) = ops_ended(World { pending_op_end: Seq::empty(), ..v3 }, w.pending_op_end);
    (v4, o1 + o3 + o4)
}

/// The window that gets the keyboard is no longer urgent.
pub open spec fn calmed(w: World, f: Focus) -> World {
    match f {
        Focus::Window(id) => w.with_win(id, Window { urgent: false, ..w.win(id) }),
        _ => w,
    }
}

/// The second half of a pass: windows told where they are, and which has the keyboard.
pub open spec fn second_half(w: World) -> (World, Seq<Order>) {
    let items = layout(w);
    let (v, o) = items_told(w, items);
    let u = World { windows: v.windows.map_values(|x: Window| let_go(x, items)), ..v };
    (
        calmed(u, keyboard(u)),
        (o + exit_orders(v.windows, items)).push(Order::SetFocus(keyboard(u))),
    )
}

/// A pass in which windows are managed.
pub open spec fn managed(w: World) -> (World, Seq<Order>) {
    let (v, o) = first_half(w);
    let (u, p) = second_half(v);
    (u, o + p)
}

// --- doing it -----------------------------------------------------------------------------

/// Gives the edges of a rectangle that lie inside an area.
pub fn tiled_edges(rect: Rect, usable: Rect) -> (e: Edges)
    ensures
        e == inner_edges(rect, usable),
{
    Edges {
        top: rect.y > usable.y,
        bottom: rect.y as i64 + (rect.h as i64) < usable.y as i64 + usable.h as i64,
        left: rect.x > usable.x,
        right: rect.x as i64 + (rect.w as i64) < usable.x as i64 + usable.w as i64,
    }
}

/// Whether a window fills its monitor in a layout.
fn is_filling(items: &Vec<RenderItem>, id: WinId) -> (r: bool)
    ensures
        r == fills(items@, id),
{
    let mut i: usize = 0;
    while i < items.len()
        invariant
            i <= items@.len(),
            forall|j: int|
                0 <= j < i ==> !((#[trigger] items@[j]).win == id && items@[j].layer
                    == Layer::Fullscreen),
        decreases items@.len() - i,
    {
        if items[i].win == id && items[i].layer == Layer::Fullscreen {
            assert(items@[i as int].win == id);
            return true;
        }
        i += 1;
    }
    false
}

impl State {
    /// Where a window floats that was given no place.
    fn seed_geo(&self, id: WinId) -> (r: Rect)
        requires
            self@.desk.wf(),
        ensures
            r == float_seed(self@, id),
    {
        let i: usize = find_key(&self.last_rects, id);
        if i < self.last_rects.len() {
            assert(self@.last_rects[i as int] == self.last_rects@[i as int]);
            let r = self.last_rects[i].1;
            if r.w > 0 && r.h > 0 {
                return r;
            }
        }
        self.default_float_geo()
    }

    /// Makes all windows ready.
    fn ready_windows(&mut self, orders: &mut Vec<Order>)
        requires
            old(self)@.wf(),
        ensures
            final(self)@ == all_readied(old(self)@),
            final(self)@.wf(),
            final(orders)@ == old(orders)@ + bare_orders(old(self)@.windows),
    {
        let ghost w = self@;
        let ghost ws = w.windows;
        let ghost done = ws.map_values(|x: Window| readied(w, x));
        let mut i: usize = 0;
        proof {
            lemma_mapped_wf(w, |x: Window| readied(w, x));
            assert(ws.take(0) =~= Seq::<Window>::empty());
            assert(ws =~= done.take(0) + ws.skip(0));
            assert(orders@ =~= old(orders)@ + bare_orders(ws.take(0)));
        }
        while i < self.windows.len()
            invariant
                i <= self.windows@.len() == ws.len(),
                w.wf(),
                ws == w.windows,
                done == ws.map_values(|x: Window| readied(w, x)),
                self.windows@ == done.take(i as int) + ws.skip(i as int),
                self@ == (World { windows: self.windows@, ..w }),
                orders@ == old(orders)@ + bare_orders(ws.take(i as int)),
            decreases ws.len() - i,
        {
            assert(ws.take(i + 1).drop_last() =~= ws.take(i as int));
            assert(self.windows@[i as int] == ws[i as int]);
            let id: WinId = self.windows[i].id;
            if !self.windows[i].ssd_applied {
                orders.push(Order::UseSsd(id));
            }
            let g = self.windows[i].float_geo;
            let bare: bool = (g.w <= 0 || g.h <= 0) && self.tag_floats(self.windows[i].tag);
            if bare {
                let geo = self.seed_geo(id);
                self.windows[i].float_geo = geo;
            }
            self.windows[i].ssd_applied = true;
            assert(self.windows@[i as int] == readied(w, ws[i as int]));
            i += 1;
            assert(self.windows@ =~= done.take(i as int) + ws.skip(i as int));
            assert(orders@ =~= old(orders)@ + bare_orders(ws.take(i as int)));
        }
        assert(ws.take(i as int) =~= ws);
        assert(self.windows@ =~= done);
    }

    /// Has the windows closed that are to be.
    fn close_pending(&mut self, orders: &mut Vec<Order>)
        requires
            old(self)@.wf(),
        ensures
            final(self)@ == (World { pending_close: Seq::empty(), ..old(self)@ }),
            final(self)@.wf(),
            final(orders)@ == old(orders)@ + close_orders(old(self)@, old(self)@.pending_close),
    {
        let ghost w = self@;
        let ghost ids = w.pending_close;
        let mut i: usize = 0;
        assert(ids.take(0) =~= Seq::<WinId>::empty());
        assert(orders@ =~= old(orders)@ + close_orders(w, ids.take(0)));
        while i < self.pending_close.len()
            invariant
                i <= self.pending_close@.len(),
                w == self@,
                w.wf(),
                self@ == old(self)@,
                ids == w.pending_close,
                orders@ == old(orders)@ + close_orders(w, ids.take(i as int)),
            decreases self.pending_close@.len() - i,
        {
            assert(ids.take(i + 1).drop_last() =~= ids.take(i as int));
            let id: WinId = self.pending_close[i];
            if self.find_win(id) < self.windows.len() {
                orders.push(Order::Close(id));
            }
            i += 1;
            assert(orders@ =~= old(orders)@ + close_orders(w, ids.take(i as int)));
        }
        assert(ids.take(i as int) =~= ids);
        self.pending_close = Vec::new();
        assert(self.pending_close@ =~= Seq::<WinId>::empty());
    }

    /// Starts to move or resize the window under the pointer.
    fn start_op(&mut self, seat: usize, resize: bool, orders: &mut Vec<Order>)
        requires
            old(self)@.wf(),
        ensures
            (final(self)@, final(orders)@) == (match old(self)@.pointer_focus {
                None => (old(self)@, old(orders)@),
                Some(id) => (
                    World {
                        op: Some(
                            PointerOp { win: id, resize, start_geo: op_geo(old(self)@, id) },
                        ),
                        ..old(self)@.make_floating(id, op_geo(old(self)@, id))
                    },
                    old(orders)@.push(Order::StartOp(seat)),
                ),
            }),
            final(self)@.wf(),
    {
        if let Some(id) = self.pointer_focus {
            let i: usize = find_key(&self.last_rects, id);
            let geo = if i < self.last_rects.len() {
                assert(self@.last_rects[i as int] == self.last_rects@[i as int]);
                self.last_rects[i].1
            } else {
                Rect::new(self.pointer_pos.0, self.pointer_pos.1, 320, 240)
            };
            self.make_floating(id, geo);
            self.op = Some(PointerOp { win: id, resize, start_geo: geo });
            orders.push(Order::StartOp(seat));
        }
    }

    /// Has seats start to move or resize the window under the pointer.
    fn start_ops(&mut self, orders: &mut Vec<Order>)
        requires
            old(self)@.wf(),
        ensures
            final(self)@ == ops_started(
                (World { pending_op_start: Seq::empty(), ..old(self)@ }),
                old(self)@.pending_op_start,
            ).0,
            final(orders)@ == old(orders)@ + ops_started(
                (World { pending_op_start: Seq::empty(), ..old(self)@ }),
                old(self)@.pending_op_start,
            ).1,
            final(self)@.wf(),
    {
        let mut starts: Vec<(usize, bool)> = Vec::new();
        core::mem::swap(&mut starts, &mut self.pending_op_start);
        let ghost w = self@;
        assert(w.pending_op_start =~= Seq::<(usize, bool)>::empty());
        let ghost all = starts@;
        let mut i: usize = 0;
        assert(all.take(0) =~= Seq::<(usize, bool)>::empty());
        assert(orders@ =~= old(orders)@ + ops_started(w, all.take(0)).1);
        while i < starts.len()
            invariant
                i <= starts@.len(),
                all == starts@,
                self@.wf(),
                self@ == ops_started(w, all.take(i as int)).0,
                orders@ == old(orders)@ + ops_started(w, all.take(i as int)).1,
            decreases starts@.len() - i,
        {
            assert(all.take(i + 1).drop_last() =~= all.take(i as int));
            let ghost o0 = ops_started(w, all.take(i as int)).1;
            self.start_op(starts[i].0, starts[i].1, orders);
            i += 1;
            assert(orders@ =~= old(orders)@ + ops_started(w, all.take(i as int)).1);
        }
        assert(all.take(i as int) =~= all);
    }

    /// Has seats end it.
    fn end_ops(&mut self, orders: &mut Vec<Order>)
        requires
            old(self)@.wf(),
        ensures
            final(self)@ == ops_ended(
                (World { pending_op_end: Seq::empty(), ..old(self)@ }),
                old(self)@.pending_op_end,
            ).0,
            final(orders)@ == old(orders)@ + ops_ended(
                (World { pending_op_end: Seq::empty(), ..old(self)@ }),
                old(self)@.pending_op_end,
            ).1,
            final(self)@.wf(),
    {
        let mut ends: Vec<usize> = Vec::new();
        core::mem::swap(&mut ends, &mut self.pending_op_end);
        let ghost w = self@;
        assert(w.pending_op_end =~= Seq::<usize>::empty());
        let ghost told = ends@.map_values(|s: usize| Order::EndOp(s));
        let mut i: usize = 0;
        assert(orders@ =~= old(orders)@ + told.take(0));
        while i < ends.len()
            invariant
                i <= ends@.len() == told.len(),
                told == ends@.map_values(|s: usize| Order::EndOp(s)),
                orders@ == old(orders)@ + told.take(i as int),
            decreases ends@.len() - i,
        {
            orders.push(Order::EndOp(ends[i]));
            i += 1;
            assert(orders@ =~= old(orders)@ + told.take(i as int));
        }
        assert(told.take(i as int) =~= told);
        if ends.len() > 0 {
            self.op = None;
        }
    }

    /// The first half of a pass.
    fn manage_first(&mut self, orders: &mut Vec<Order>)
        requires
            old(self)@.wf(),
        ensures
            final(self)@ == first_half(old(self)@).0,
            final(orders)@ == old(orders)@ + first_half(old(self)@).1,
            final(self)@.wf(),
    {
        let ghost w = self@;
        let ghost start = orders@;
        self.ready_windows(orders);
        orders.push(Order::EnableBindings);
        let ghost o1 = bare_orders(w.windows).push(Order::EnableBindings);
        assert(orders@ =~= start + o1);
        let ghost v1 = self@;
        self.close_pending(orders);
        let ghost o2 = o1 + close_orders(v1, w.pending_close);
        assert(orders@ =~= start + o2);
        let ghost v2 = self@;
        self.start_ops(orders);
        let ghost o3 = ops_started(World { pending_op_start: Seq::empty(), ..v2 }, w.pending_op_start).1;
        assert(orders@ =~= start + (o2 + o3));
        proof {
            lemma_starts_keep((World { pending_op_start: Seq::empty(), ..v2 }), w.pending_op_start);
        }
        let ghost v3 = self@;
        self.end_ops(orders);
        let ghost o4 = ops_ended(World { pending_op_end: Seq::empty(), ..v3 }, w.pending_op_end).1;
        assert(orders@ =~= start + (o2 + o3 + o4));
    }

    /// Tells a window where it is.
    fn tell_item(&mut self, it: &RenderItem, orders: &mut Vec<Order>)
        requires
            old(self)@.wf(),
            it.mon < old(self)@.desk.list.len(),
        ensures
            final(self)@ == item_told(old(self)@, *it).0,
            final(orders)@ == old(orders)@ + item_told(old(self)@, *it).1,
            final(self)@.wf(),
    {
        let ghost w = self@;
        let ghost start = orders@;
        let ghost id = it.win;
        let output = self.output_for_monitor(it.mon);
        let usable = self.monitors.list[it.mon].usable();
        let i: usize = self.find_win(it.win);
        if i == self.windows.len() {
            assert(orders@ =~= start + Seq::<Order>::empty());
            return;
        }
        let applied: bool = self.windows[i].applied_fullscreen;
        let pseudo: bool = self.windows[i].pseudotile;
        let free: bool = self.win_floats(&self.windows[i]) || self.windows[i].dock.is_some();
        if it.layer == Layer::Fullscreen {
            if let Some(output) = output {
                if !applied {
                    orders.push(Order::Fullscreen { win: it.win, output });
                    assert(orders@ =~= start + seq![Order::Fullscreen { win: it.win, output }]);
                    self.mark_fullscreen(it.win, true);
                    return;
                }
            }
            assert(orders@ =~= start + Seq::<Order>::empty());
            return;
        }
        let ghost exit = if w.win(id).applied_fullscreen {
            seq![Order::ExitFullscreen(id)]
        } else {
            Seq::empty()
        };
        if applied {
            orders.push(Order::ExitFullscreen(it.win));
        }
        assert(orders@ =~= start + exit);
        self.mark_fullscreen(it.win, false);
        let none = Edges { top: false, bottom: false, left: false, right: false };
        let (pw, ph, edges) = if pseudo {
            (0, 0, none)
        } else {
            (
                it.rect.w,
                it.rect.h,
                if free {
                    none
                } else {
                    tiled_edges(it.rect, usable)
                },
            )
        };
        orders.push(Order::Propose { win: it.win, w: pw, h: ph });
        orders.push(Order::SetTiled { win: it.win, edges });
        assert(orders@ =~= start + (exit + seq![
            Order::Propose { win: id, w: pw, h: ph },
            Order::SetTiled { win: id, edges },
        ]));
    }

    /// Notes whether a window was told that it fills its monitor.
    fn mark_fullscreen(&mut self, id: WinId, on: bool)
        requires
            old(self)@.wf(),
        ensures
            final(self)@ == old(self)@.with_win(
                id,
                Window { applied_fullscreen: on, ..old(self)@.win(id) },
            ),
            final(self)@.wf(),
    {
        if let Some(w) = self.win_mut(id) {
            w.applied_fullscreen = on;
        }
    }

    /// Tells windows where they are.
    fn tell_items(&mut self, items: &Vec<RenderItem>, orders: &mut Vec<Order>)
        requires
            old(self)@.wf(),
            forall|k: int| 0 <= k < items@.len() ==> (#[trigger] items@[k]).mon < old(self)@.desk.list.len(),
        ensures
            final(self)@ == items_told(old(self)@, items@).0,
            final(orders)@ == old(orders)@ + items_told(old(self)@, items@).1,
            final(self)@.wf(),
    {
        let ghost w = self@;
        let ghost all = items@;
        let mut i: usize = 0;
        assert(all.take(0) =~= Seq::<RenderItem>::empty());
        assert(orders@ =~= old(orders)@ + items_told(w, all.take(0)).1);
        while i < items.len()
            invariant
                i <= items@.len(),
                all == items@,
                forall|k: int| 0 <= k < items@.len() ==> (#[trigger] items@[k]).mon < w.desk.list.len(),
                self@.wf(),
                self@.desk == w.desk,
                self@ == items_told(w, all.take(i as int)).0,
                orders@ == old(orders)@ + items_told(w, all.take(i as int)).1,
            decreases items@.len() - i,
        {
            assert(all.take(i + 1).drop_last() =~= all.take(i as int));
            let ghost o0 = items_told(w, all.take(i as int)).1;
            let ghost v0 = self@;
            let it = &items[i];
            if it.visible || it.layer == Layer::Fullscreen {
                self.tell_item(it, orders);
                assert(old(orders)@ + o0 + item_told(v0, *it).1 =~= old(orders)@ + (o0 + item_told(
                    v0,
                    *it,
                ).1));
            }
            i += 1;
        }
        assert(all.take(i as int) =~= all);
    }

    /// Tells the windows that no longer fill their monitor so.
    fn tell_exits(&mut self, items: &Vec<RenderItem>, orders: &mut Vec<Order>)
        requires
            old(self)@.wf(),
        ensures
            final(self)@ == (World {
                windows: old(self)@.windows.map_values(|x: Window| let_go(x, items@)),
                ..old(self)@
            }),
            final(orders)@ == old(orders)@ + exit_orders(old(self)@.windows, items@),
            final(self)@.wf(),
    {
        let ghost w = self@;
        let ghost ws = w.windows;
        let ghost all = items@;
        let ghost done = ws.map_values(|x: Window| let_go(x, all));
        let mut i: usize = 0;
        proof {
            lemma_mapped_wf(w, |x: Window| let_go(x, all));
            assert(ws.take(0) =~= Seq::<Window>::empty());
            assert(ws =~= done.take(0) + ws.skip(0));
            assert(orders@ =~= old(orders)@ + exit_orders(ws.take(0), all));
        }
        while i < self.windows.len()
            invariant
                i <= self.windows@.len() == ws.len(),
                all == items@,
                ws == w.windows,
                done == ws.map_values(|x: Window| let_go(x, all)),
                self.windows@ == done.take(i as int) + ws.skip(i as int),
                self@ == (World { windows: self.windows@, ..w }),
                orders@ == old(orders)@ + exit_orders(ws.take(i as int), all),
            decreases ws.len() - i,
        {
            assert(ws.take(i + 1).drop_last() =~= ws.take(i as int));
            assert(self.windows@[i as int] == ws[i as int]);
            let id: WinId = self.windows[i].id;
            if self.windows[i].applied_fullscreen && !is_filling(items, id) {
                orders.push(Order::ExitFullscreen(id));
                self.windows[i].applied_fullscreen = false;
            }
            assert(self.windows@[i as int] == let_go(ws[i as int], all));
            i += 1;
            assert(self.windows@ =~= done.take(i as int) + ws.skip(i as int));
            assert(orders@ =~= old(orders)@ + exit_orders(ws.take(i as int), all));
        }
        assert(ws.take(i as int) =~= ws);
        assert(self.windows@ =~= done);
    }

    /// What has the keyboard.
    fn keyboard_focus(&self) -> (r: Focus)
        requires
            self@.wf(),
        ensures
            r == keyboard(self@),
    {
        if self.tray_menu.is_some() {
            return Focus::Menu;
        }
        if self.launcher.is_some() {
            return Focus::Launcher;
        }
        match self.focused_window() {
            Some(id) => if self.find_win(id) < self.windows.len() {
                Focus::Window(id)
            } else {
                Focus::Nothing
            },
            None => Focus::Nothing,
        }
    }

    /// The second half of a pass.
    fn manage_second(&mut self, orders: &mut Vec<Order>)
        requires
            old(self)@.wf(),
        ensures
            final(self)@ == second_half(old(self)@).0,
            final(orders)@ == old(orders)@ + second_half(old(self)@).1,
            final(self)@.wf(),
    {
        let ghost w = self@;
        let ghost start = orders@;
        let items = self.compute_layout();
        proof {
            assert(w.desk.list.len() == self.monitors.list.len());
            crate::layout_laws::law_on_monitors(w);
        }
        self.tell_items(&items, orders);
        let ghost v = self@;
        let ghost o1 = items_told(w, items@).1;
        self.tell_exits(&items, orders);
        let ghost o2 = exit_orders(v.windows, items@);
        assert(orders@ =~= start + (o1 + o2));
        let f = self.keyboard_focus();
        orders.push(Order::SetFocus(f));
        if let Focus::Window(id) = f {
            if let Some(x) = self.win_mut(id) {
                x.urgent = false;
            }
        }
        assert(orders@ =~= start + (o1 + o2).push(Order::SetFocus(f)));
    }

    /// A pass in which windows are managed: what the display is told.
    pub fn do_manage(&mut self) -> (orders: Vec<Order>)
        requires
            old(self)@.wf(),
        ensures
            (final(self)@, orders@) == managed(old(self)@),
            final(self)@.wf(),
    {
        let mut orders: Vec<Order> = Vec::new();
        self.manage_first(&mut orders);
        assert(orders@ =~= first_half(old(self)@).1);
        self.manage_second(&mut orders);
        orders
    }
}

/// The window that has the keyboard after a pass is not urgent.
pub proof fn law_focus_calms(w: World)
    requires
        w.wf(),
    ensures
        keyboard(managed(w).0) matches Focus::Window(id) ==> managed(w).0.has_win(id) && !managed(
            w,
        ).0.win(id).urgent,
{
    let v = first_half(w).0;
    let items = layout(v);
    let t = items_told(v, items).0;
    let u = World { windows: t.windows.map_values(|x: Window| let_go(x, items)), ..t };
    if let Focus::Window(id) = keyboard(u) {
        let new = Window { urgent: false, ..u.win(id) };
        lemma_win_place(u.windows, id);
        crate::cmd_window::lemma_still_there(u, id, new);
        let c = u.with_win(id, new);
        lemma_win_place(c.windows, id);
        let i = win_place(u.windows, id);
        let j = win_place(c.windows, id);
        assert(c.windows[i].id == id);
        if j < i {
            assert(u.windows[j].id == id);
        }
    }
}

/// Starting to move a window leaves alone which seats are to end it.
proof fn lemma_starts_keep(w: World, starts: Seq<(usize, bool)>)
    ensures
        ops_started(w, starts).0.pending_op_end == w.pending_op_end,
    decreases starts.len(),
{
    if starts.len() > 0 {
        lemma_starts_keep(w, starts.drop_last());
    }
}

} // verus!
