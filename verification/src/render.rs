//! What is drawn: windows with their borders, backgrounds and what darkens windows.

use vstd::prelude::*;
use crate::frame::WinId;
use crate::layout::{layout, Layer, RenderItem};
use crate::monitor::{clip, clip_to, divide, quotient, Rect};
use crate::state::{Overlay, State, Window, World};
use crate::table::{find_key, put, put_key, value_of};
use crate::theme::{dims, expand_color, is_dimmed, widened, Color};
use crate::wallpaper::Backdrop;

verus! {

/// A border: its width, and its colour in channels of 32 bits.
#[derive(Clone, Copy, Debug, PartialEq, Eq)]
pub struct Border {
    pub width: i32,
    pub color: (u32, u32, u32, u32),
}

/// A window that is shown.
#[derive(Clone, Copy, Debug, PartialEq, Eq)]
pub struct Shown {
    pub win: WinId,
    pub x: i32,
    pub y: i32,
    pub border: Option<Border>,
}

/// What is drawn of the windows.
#[derive(Debug)]
pub struct Scene {
    /// The windows that are shown, from the lowest to the highest.
    pub shown: Vec<Shown>,
    /// The windows that are hidden.
    pub hidden: Vec<WinId>,
    /// Where the windows are laid out.
    pub items: Vec<RenderItem>,
    /// The window that has the focus.
    pub focused: Option<WinId>,
}

/// Where a window is drawn: in the corner of its place, or, where it keeps its size, in
/// the middle.
pub open spec fn drawn_at(w: World, it: RenderItem) -> (i32, i32) {
    let x = w.win(it.win);
    if x.pseudotile && !w.floats(x) {
        let dw = if x.dims.0 > 0 {
            x.dims.0
        } else {
            it.rect.w
        };
        let dh = if x.dims.1 > 0 {
            x.dims.1
        } else {
            it.rect.h
        };
        (
            clip(it.rect.x + quotient(it.rect.w - dw, 2)),
            clip(it.rect.y + quotient(it.rect.h - dh, 2)),
        )
    } else {
        (it.rect.x, it.rect.y)
    }
}

/// How many windows in frames are seen on a monitor.
pub open spec fn tile_count(items: Seq<RenderItem>, mon: usize) -> nat
    decreases items.len(),
{
    if items.len() == 0 {
        0
    } else {
        let it = items.last();
        tile_count(items.drop_last(), mon) + (if it.visible && it.layer == Layer::Tiled && it.mon
            == mon {
            1nat
        } else {
            0
        })
    }
}

/// Whether a window in a frame is the only one of its monitor, and that matters.
pub open spec fn alone(w: World, items: Seq<RenderItem>, it: RenderItem) -> bool {
    w.settings.smart_window_surroundings && it.layer == Layer::Tiled && tile_count(items, it.mon) == 1
}

/// A colour in channels of 32 bits.
pub open spec fn wide(c: Color) -> (u32, u32, u32, u32) {
    (widened(c.0) as u32, widened(c.1) as u32, widened(c.2) as u32, widened(c.3) as u32)
}

/// The border of a window: none where there is to be none, or where it fills its monitor,
/// is a bar, or is alone.
pub open spec fn border_of(w: World, items: Seq<RenderItem>, it: RenderItem) -> Option<Border> {
    if w.settings.border_width > 0 && it.layer != Layer::Fullscreen && it.layer != Layer::Dock && !alone(
        w,
        items,
        it,
    ) {
        Some(
            Border {
                width: w.settings.border_width,
                color: wide(
                    if w.focused_window() == Some(it.win) {
                        w.settings.border_active
                    } else if w.win(it.win).urgent {
                        w.settings.border_urgent
                    } else {
                        w.settings.border_normal
                    },
                ),
            },
        )
    } else {
        None
    }
}

/// The windows that are shown.
pub open spec fn shown_of(w: World, items: Seq<RenderItem>, some: Seq<RenderItem>) -> Seq<Shown>
    decreases some.len(),
{
    if some.len() == 0 {
        Seq::empty()
    } else {
        let before = shown_of(w, items, some.drop_last());
        let it = some.last();
        if it.visible && w.has_win(it.win) {
            before.push(
                Shown {
                    win: it.win,
                    x: drawn_at(w, it).0,
                    y: drawn_at(w, it).1,
                    border: border_of(w, items, it),
                },
            )
        } else {
            before
        }
    }
}

/// Whether a window is seen.
pub open spec fn seen(items: Seq<RenderItem>, id: WinId) -> bool {
    exists|i: int| 0 <= i < items.len() && (#[trigger] items[i]).win == id && items[i].visible
}

/// The windows that are hidden.
pub open spec fn hidden_of(items: Seq<RenderItem>, ws: Seq<Window>) -> Seq<WinId>
    decreases ws.len(),
{
    if ws.len() == 0 {
        Seq::empty()
    } else if seen(items, ws.last().id) {
        hidden_of(items, ws.drop_last())
    } else {
        hidden_of(items, ws.drop_last()).push(ws.last().id)
    }
}

/// Where the windows of a layout are.
pub open spec fn rects_of(items: Seq<RenderItem>) -> Seq<(u64, Rect)> {
    items.map_values(|it: RenderItem| (it.win, it.rect))
}

/// Whether a window is seen.
fn is_seen(items: &Vec<RenderItem>, id: WinId) -> (r: bool)
    ensures
        r == seen(items@, id),
{
    let mut i: usize = 0;
    while i < items.len()
        invariant
            i <= items@.len(),
            forall|j: int| 0 <= j < i ==> !((#[trigger] items@[j]).win == id && items@[j].visible),
        decreases items@.len() - i,
    {
        if items[i].win == id && items[i].visible {
            assert(items@[i as int].win == id);
            return true;
        }
        i += 1;
    }
    false
}

/// Whether one window in a frame is seen on a monitor.
fn one_tile(items: &Vec<RenderItem>, mon: usize) -> (r: bool)
    ensures
        r == (tile_count(items@, mon) == 1),
{
    let mut n: usize = 0;
    let mut i: usize = 0;
    assert(items@.take(0) =~= Seq::<RenderItem>::empty());
    while i < items.len()
        invariant
            i <= items@.len() == items.len(),
            n <= i,
            n == tile_count(items@.take(i as int), mon),
        decreases items@.len() - i,
    {
        assert(items@.take(i + 1).drop_last() =~= items@.take(i as int));
        if items[i].visible && items[i].layer == Layer::Tiled && items[i].mon == mon {
            n += 1;
        }
        i += 1;
    }
    assert(items@.take(i as int) =~= items@);
    n == 1
}

impl State {
    /// How a window is shown.
    fn show_item(&self, items: &Vec<RenderItem>, it: &RenderItem, focused: Option<WinId>) -> (r: Option<Shown>)
        requires
            self@.wf(),
            focused == self@.focused_window(),
        ensures
            r == (if it.visible && self@.has_win(it.win) {
                Some(
                    Shown {
                        win: it.win,
                        x: drawn_at(self@, *it).0,
                        y: drawn_at(self@, *it).1,
                        border: border_of(self@, items@, *it),
                    },
                )
            } else {
                None
            }),
    {
        let i: usize = self.find_win(it.win);
        if !it.visible || i == self.windows.len() {
            return None;
        }
        let w = &self.windows[i];
        let (x, y): (i32, i32) = if w.pseudotile && !self.win_floats(w) {
            let dw: i32 = if w.dims.0 > 0 {
                w.dims.0
            } else {
                it.rect.w
            };
            let dh: i32 = if w.dims.1 > 0 {
                w.dims.1
            } else {
                it.rect.h
            };
            (
                clip_to(it.rect.x as i128 + divide(it.rect.w as i128 - dw as i128, 2)),
                clip_to(it.rect.y as i128 + divide(it.rect.h as i128 - dh as i128, 2)),
            )
        } else {
            (it.rect.x, it.rect.y)
        };
        let lone: bool = self.settings.smart_window_surroundings && it.layer == Layer::Tiled && one_tile(
            items,
            it.mon,
        );
        let border: Option<Border> = if self.settings.border_width > 0 && it.layer != Layer::Fullscreen
            && it.layer != Layer::Dock && !lone {
            let color = if focused == Some(it.win) {
                self.settings.border_active
            } else if w.urgent {
                self.settings.border_urgent
            } else {
                self.settings.border_normal
            };
            Some(Border { width: self.settings.border_width, color: expand_color(color) })
        } else {
            None
        };
        Some(Shown { win: it.win, x, y, border })
    }

    /// A pass in which windows are drawn. Where each is laid out is remembered.
    pub fn do_render(&mut self) -> (r: Scene)
        requires
            old(self)@.wf(),
        ensures
            r.items@ == layout(old(self)@),
            r.focused == old(self)@.focused_window(),
            r.shown@ == shown_of(old(self)@, r.items@, r.items@),
            r.hidden@ == hidden_of(r.items@, old(self)@.windows),
            final(self)@ == (World { last_rects: rects_of(r.items@), ..old(self)@ }),
            final(self)@.wf(),
    {
        let ghost w = self@;
        let items = self.compute_layout();
        let focused = self.focused_window();
        let ghost all = items@;
        let mut shown: Vec<Shown> = Vec::new();
        let mut rects: Vec<(u64, Rect)> = Vec::new();
        let mut i: usize = 0;
        assert(all.take(0) =~= Seq::<RenderItem>::empty());
        while i < items.len()
            invariant
                i <= items@.len(),
                all == items@,
                self@ == w,
                w.wf(),
                focused == w.focused_window(),
                shown@ == shown_of(w, all, all.take(i as int)),
                rects@ == rects_of(all).take(i as int),
            decreases items@.len() - i,
        {
            assert(all.take(i + 1).drop_last() =~= all.take(i as int));
            if let Some(s) = self.show_item(&items, &items[i], focused) {
                shown.push(s);
            }
            rects.push((items[i].win, items[i].rect));
            i += 1;
            assert(rects@ =~= rects_of(all).take(i as int));
        }
        assert(all.take(i as int) =~= all);
        assert(rects_of(all).take(i as int) =~= rects_of(all));
        let mut hidden: Vec<WinId> = Vec::new();
        let mut k: usize = 0;
        assert(w.windows.take(0) =~= Seq::<Window>::empty());
        while k < self.windows.len()
            invariant
                k <= self.windows@.len(),
                self@ == w,
                all == items@,
                hidden@ == hidden_of(all, w.windows.take(k as int)),
            decreases self.windows@.len() - k,
        {
            assert(w.windows.take(k + 1).drop_last() =~= w.windows.take(k as int));
            if !is_seen(&items, self.windows[k].id) {
                hidden.push(self.windows[k].id);
            }
            k += 1;
        }
        assert(w.windows.take(k as int) =~= w.windows);
        self.last_rects = rects;
        assert(self.last_rects.deep_view() =~= rects_of(all));
        Scene { shown, hidden, items, focused }
    }
}

// --- darkening ----------------------------------------------------------------------------

/// Something that is done with what darkens a window.
#[derive(Clone, Copy, Debug, PartialEq, Eq, Structural)]
pub enum DimOrder {
    Show { win: WinId, w: i32, h: i32 },
    Hide(WinId),
}

/// Where a window is that is to be darkened: it is seen, does not have the focus, and
/// does not fill its monitor.
pub open spec fn dim_rect(items: Seq<RenderItem>, focused: Option<WinId>, id: WinId) -> Option<Rect>
    decreases items.len(),
{
    if items.len() == 0 {
        None
    } else {
        let it = items.last();
        if it.win == id && it.visible && focused != Some(id) && it.layer != Layer::Fullscreen {
            Some(it.rect)
        } else {
            dim_rect(items.drop_last(), focused, id)
        }
    }
}

/// What darkens a window; what does not yet, where there is none.
pub open spec fn overlay_of(w: World, id: WinId) -> Overlay {
    match value_of(w.overlays, id) {
        Some(o) => o,
        None => Overlay { shown: false, w: 0, h: 0 },
    }
}

/// At least one.
pub open spec fn at_least_one(n: i32) -> i32 {
    if n > 1 {
        n
    } else {
        1
    }
}

/// One window darkened, or darkened no more.
pub open spec fn dimmed_one(w: World, id: WinId, place: Option<Rect>, fresh: bool) -> (World, Seq<DimOrder>) {
    let o = overlay_of(w, id);
    match place {
        Some(r) => if !o.shown || o.w != r.w || o.h != r.h || fresh {
            (
                World { overlays: put(w.overlays, id, Overlay { shown: true, w: r.w, h: r.h }), ..w },
                seq![DimOrder::Show { win: id, w: at_least_one(r.w), h: at_least_one(r.h) }],
            )
        } else {
            (w, Seq::empty())
        },
        None => if o.shown {
            (
                World { overlays: put(w.overlays, id, Overlay { shown: false, ..o }), ..w },
                seq![DimOrder::Hide(id)],
            )
        } else {
            (w, Seq::empty())
        },
    }
}

/// Windows darkened, or darkened no more.
pub open spec fn dimmed(
    w: World,
    ws: Seq<Window>,
    items: Seq<RenderItem>,
    focused: Option<WinId>,
    fresh: bool,
) -> (World, Seq<DimOrder>)
    decreases ws.len(),
{
    if ws.len() == 0 {
        (w, Seq::empty())
    } else {
        let (v, orders) = dimmed(w, ws.drop_last(), items, focused, fresh);
        let id = ws.last().id;
        let place = if dims(w.settings.inactive_dim) {
            dim_rect(items, focused, id)
        } else {
            None
        };
        let (u, more) = dimmed_one(v, id, place, fresh);
        (u, orders + more)
    }
}

/// Where a window is that is to be darkened.
fn find_dim_rect(items: &Vec<RenderItem>, focused: Option<WinId>, id: WinId) -> (r: Option<Rect>)
    ensures
        r == dim_rect(items@, focused, id),
{
    let mut n: usize = items.len();
    assert(items@.take(n as int) =~= items@);
    while n > 0
        invariant
            n <= items@.len(),
            dim_rect(items@, focused, id) == dim_rect(items@.take(n as int), focused, id),
        decreases n,
    {
        assert(items@.take(n as int).drop_last() =~= items@.take(n - 1));
        let it = &items[n - 1];
        if it.win == id && it.visible && focused != Some(id) && it.layer != Layer::Fullscreen {
            return Some(it.rect);
        }
        n -= 1;
    }
    None
}

impl State {
    /// Darkens a window, or darkens it no more.
    fn dim_one(&mut self, id: WinId, place: Option<Rect>, fresh: bool) -> (r: Option<DimOrder>)
        requires
            old(self)@.wf(),
        ensures
            final(self)@ == dimmed_one(old(self)@, id, place, fresh).0,
            dimmed_one(old(self)@, id, place, fresh).1 == (match r {
                Some(o) => seq![o],
                None => Seq::empty(),
            }),
            final(self)@.wf(),
    {
        let i: usize = find_key(&self.overlays, id);
        let o = if i < self.overlays.len() {
            assert(self@.overlays[i as int] == self.overlays@[i as int]);
            self.overlays[i].1
        } else {
            Overlay { shown: false, w: 0, h: 0 }
        };
        match place {
            Some(r) => {
                if !o.shown || o.w != r.w || o.h != r.h || fresh {
                    put_key(&mut self.overlays, id, Overlay { shown: true, w: r.w, h: r.h });
                    let w: i32 = if r.w > 1 {
                        r.w
                    } else {
                        1
                    };
                    let h: i32 = if r.h > 1 {
                        r.h
                    } else {
                        1
                    };
                    Some(DimOrder::Show { win: id, w, h })
                } else {
                    None
                }
            },
            None => {
                if o.shown {
                    put_key(&mut self.overlays, id, Overlay { shown: false, w: o.w, h: o.h });
                    Some(DimOrder::Hide(id))
                } else {
                    None
                }
            },
        }
    }

    /// Darkens the windows that do not have the focus. `fresh` where the darkness was
    /// made anew, so that all are to show it.
    pub fn apply_dim(&mut self, items: &Vec<RenderItem>, focused: Option<WinId>, fresh: bool) -> (r: Vec<DimOrder>)
        requires
            old(self)@.wf(),
        ensures
            (final(self)@, r@) == (if old(self)@.globals.compositor && old(self)@.globals.dimming {
                dimmed(old(self)@, old(self)@.windows, items@, focused, fresh)
            } else {
                (old(self)@, Seq::empty())
            }),
            final(self)@.wf(),
    {
        let mut r: Vec<DimOrder> = Vec::new();
        if !self.globals.compositor || !self.globals.dimming {
            return r;
        }
        let ghost w = self@;
        let ghost ws = w.windows;
        let on: bool = is_dimmed(self.settings.inactive_dim);
        let mut i: usize = 0;
        assert(ws.take(0) =~= Seq::<Window>::empty());
        while i < self.windows.len()
            invariant
                i <= self.windows@.len() == ws.len(),
                ws == w.windows,
                self@.windows == ws,
                self@.wf(),
                on == dims(w.settings.inactive_dim),
                self@ == dimmed(w, ws.take(i as int), items@, focused, fresh).0,
                r@ == dimmed(w, ws.take(i as int), items@, focused, fresh).1,
            decreases ws.len() - i,
        {
            assert(ws.take(i + 1).drop_last() =~= ws.take(i as int));
            let id: WinId = self.windows[i].id;
            assert(ws.take(i + 1).last().id == id);
            let place = if on {
                find_dim_rect(items, focused, id)
            } else {
                None
            };
            let ghost r0 = r@;
            match self.dim_one(id, place, fresh) {
                Some(o) => {
                    r.push(o);
                    assert(r@ =~= r0 + seq![o]);
                },
                None => {
                    assert(r@ =~= r0 + Seq::<DimOrder>::empty());
                },
            }
            i += 1;
        }
        assert(ws.take(i as int) =~= ws);
        r
    }
}

// --- backgrounds --------------------------------------------------------------------------

/// A background that is drawn.
#[derive(Clone, Copy, Debug, PartialEq, Eq, Structural)]
pub struct WallPlace {
    pub mon: u64,
    /// Where it is.
    pub x: i32,
    pub y: i32,
    /// How large it is.
    pub w: i32,
    pub h: i32,
    /// Whether it must be painted first.
    pub paint: bool,
}

/// The size that a background has on a monitor.
pub open spec fn wall_rect(r: Rect) -> Rect {
    Rect { x: r.x, y: r.y, w: at_least_one(r.w), h: at_least_one(r.h) }
}

/// Whether a background was painted as it is, in this size.
pub open spec fn is_painted(w: World, mon: u64, r: Rect) -> bool {
    match value_of(w.painted, mon) {
        Some(p) => p.w == r.w && p.h == r.h,
        None => false,
    }
}

/// The backgrounds of the monitors that there are.
pub open spec fn walls_drawn(w: World, walls: Seq<(u64, Backdrop)>) -> Seq<WallPlace>
    decreases walls.len(),
{
    if walls.len() == 0 {
        Seq::empty()
    } else {
        let before = walls_drawn(w, walls.drop_last());
        let mon = walls.last().0;
        if mon < w.desk.list.len() {
            let r = wall_rect(w.desk.list[mon as int].rect);
            before.push(
                WallPlace { mon, x: r.x, y: r.y, w: r.w, h: r.h, paint: !is_painted(w, mon, r) },
            )
        } else {
            before
        }
    }
}

impl State {
    /// The backgrounds of the monitors that there are.
    pub fn render_wallpaper(&self) -> (r: Vec<WallPlace>)
        ensures
            r@ == (if self@.globals.shm {
                walls_drawn(self@, self@.wallpapers)
            } else {
                Seq::empty()
            }),
    {
        let mut r: Vec<WallPlace> = Vec::new();
        if !self.globals.shm {
            return r;
        }
        let ghost w = self@;
        let ghost walls = w.wallpapers;
        let mut i: usize = 0;
        assert(walls.take(0) =~= Seq::<(u64, Backdrop)>::empty());
        while i < self.wallpapers.len()
            invariant
                i <= self.wallpapers@.len() == walls.len(),
                w == self@,
                walls == w.wallpapers,
                r@ == walls_drawn(w, walls.take(i as int)),
            decreases walls.len() - i,
        {
            assert(walls.take(i + 1).drop_last() =~= walls.take(i as int));
            assert(walls[i as int].0 == self.wallpapers@[i as int].0);
            let mon: u64 = self.wallpapers[i].0;
            if mon < self.monitors.list.len() as u64 {
                assert(w.desk.list[mon as int].rect == self.monitors.list@[mon as int].rect);
                let m = self.monitors.list[mon as usize].rect;
                let width: i32 = if m.w > 1 {
                    m.w
                } else {
                    1
                };
                let high: i32 = if m.h > 1 {
                    m.h
                } else {
                    1
                };
                let at: usize = find_key(&self.painted, mon);
                let done: bool = at < self.painted.len() && self.painted[at].1.w == width
                    && self.painted[at].1.h == high;
                proof {
                    if at < self.painted@.len() {
                        assert(w.painted[at as int] == self.painted@[at as int]);
                    }
                }
                r.push(WallPlace { mon, x: m.x, y: m.y, w: width, h: high, paint: !done });
            }
            i += 1;
        }
        assert(walls.take(i as int) =~= walls);
        r
    }

    /// Notes that a background was painted.
    pub fn wallpaper_painted(&mut self, p: &WallPlace)
        requires
            old(self)@.wf(),
        ensures
            final(self)@ == (World {
                painted: put(old(self)@.painted, p.mon, (Rect { x: p.x, y: p.y, w: p.w, h: p.h })),
                ..old(self)@
            }),
            final(self)@.wf(),
    {
        put_key(&mut self.painted, p.mon, Rect::new(p.x, p.y, p.w, p.h));
    }
}

} // verus!
