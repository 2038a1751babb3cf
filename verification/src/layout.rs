//! Where every window goes, over all monitors.

use vstd::prelude::*;
use crate::frame::{Placement, WinId};
use crate::monitor::{clip, clip_to, shrink, stack_order, Rect, Screen};
use crate::outputs::{in_rect, rect_holds};
use crate::rules::DockAnchor;
use crate::state::{State, Window, World};
use crate::table::find_key;

verus! {

/// The layers that the windows of a monitor are drawn in, from the lowest.
#[derive(Clone, Copy, Debug, PartialEq, Eq, Structural)]
pub enum Layer {
    Tiled,
    Floating,
    Dock,
    Fullscreen,
}

/// Where a window goes.
#[derive(Clone, Copy, Debug, PartialEq, Eq, Structural)]
pub struct RenderItem {
    /// The monitor that it is on.
    pub mon: usize,
    pub win: WinId,
    pub rect: Rect,
    /// False for a window that others of its frame cover.
    pub visible: bool,
    pub layer: Layer,
    /// Its height within its layer.
    pub seq: u64,
}

/// The height of a layer.
pub open spec fn height(l: Layer) -> int {
    match l {
        Layer::Tiled => 0,
        Layer::Floating => 1,
        Layer::Dock => 2,
        Layer::Fullscreen => 3,
    }
}

/// Whether an item is drawn below another one of its monitor.
pub open spec fn below(a: RenderItem, b: RenderItem) -> bool {
    height(a.layer) < height(b.layer) || (a.layer == b.layer && a.seq < b.seq)
}

/// Whether an item is drawn below another one of its monitor.
fn is_below(a: &RenderItem, b: &RenderItem) -> (r: bool)
    ensures
        r == below(*a, *b),
{
    let x: u8 = layer_height(a.layer);
    let y: u8 = layer_height(b.layer);
    x < y || (x == y && a.seq < b.seq)
}

/// The height of a layer.
fn layer_height(l: Layer) -> (r: u8)
    ensures
        r == height(l),
{
    match l {
        Layer::Tiled => 0,
        Layer::Floating => 1,
        Layer::Dock => 2,
        Layer::Fullscreen => 3,
    }
}

// --- gathering ----------------------------------------------------------------------------

/// Whether a window is among the items.
pub open spec fn taken(all: Seq<RenderItem>, win: WinId) -> bool {
    exists|i: int| 0 <= i < all.len() && (#[trigger] all[i]).win == win
}

/// An item added, unless its window is among the items.
pub open spec fn claim(all: Seq<RenderItem>, it: RenderItem) -> Seq<RenderItem> {
    if taken(all, it.win) {
        all
    } else {
        all.push(it)
    }
}

/// Whether a window is laid out apart from its tag's frames.
pub open spec fn apart(w: World, id: WinId) -> bool {
    w.has_win(id) && (w.floats(w.win(id)) || w.win(id).dock is Some)
}

/// The item of a window in a frame.
pub open spec fn tile(w: World, mi: usize, p: Placement) -> RenderItem {
    RenderItem {
        mon: mi,
        win: p.win,
        rect: p.rect,
        visible: p.visible,
        layer: if w.has_win(p.win) && w.win(p.win).fullscreen {
            Layer::Fullscreen
        } else {
            Layer::Tiled
        },
        seq: 0,
    }
}

/// The items with those of windows in frames added.
pub open spec fn with_tiles(w: World, all: Seq<RenderItem>, mi: usize, ps: Seq<Placement>) -> Seq<RenderItem>
    decreases ps.len(),
{
    if ps.len() == 0 {
        all
    } else {
        let before = with_tiles(w, all, mi, ps.drop_last());
        if apart(w, ps.last().win) {
            before
        } else {
            claim(before, tile(w, mi, ps.last()))
        }
    }
}

/// The item of a floating window.
pub open spec fn float_item(mi: usize, win: Window) -> RenderItem {
    RenderItem {
        mon: mi,
        win: win.id,
        rect: win.float_geo,
        visible: true,
        layer: if win.fullscreen {
            Layer::Fullscreen
        } else {
            Layer::Floating
        },
        seq: win.raise_seq,
    }
}

/// The items with those of floating windows of a tag added.
pub open spec fn with_floats(w: World, all: Seq<RenderItem>, mi: usize, tag: u32, ws: Seq<Window>) -> Seq<RenderItem>
    decreases ws.len(),
{
    if ws.len() == 0 {
        all
    } else {
        let before = with_floats(w, all, mi, tag, ws.drop_last());
        if ws.last().tag == tag && w.floats(ws.last()) {
            claim(before, float_item(mi, ws.last()))
        } else {
            before
        }
    }
}

/// The gap of a tag's frames: none where there is one frame and that is wanted.
pub open spec fn tag_gap(w: World, tag: u32) -> i32 {
    if w.settings.smart_frame_surroundings && w.tree(tag) is Some && w.tree(tag)->0 is Leaf {
        0
    } else {
        w.settings.window_gap
    }
}

/// An area made smaller by a gap on every side.
pub open spec fn inset(a: Rect, gap: int) -> Rect {
    Rect {
        x: clip(a.x + gap),
        y: clip(a.y + gap),
        w: clip(
            if a.w - 2 * gap > 0 {
                a.w - 2 * gap
            } else {
                0
            },
        ),
        h: clip(
            if a.h - 2 * gap > 0 {
                a.h - 2 * gap
            } else {
                0
            },
        ),
    }
}

/// Where the windows in the frames of a monitor's tag go.
pub open spec fn tag_places(w: World, m: Screen) -> Seq<Placement> {
    match w.tree(m.tag) {
        Some(t) => t.place(
            inset(shrink(m.rect, m.pad), tag_gap(w, m.tag) as int),
            tag_gap(w, m.tag) as int,
        ),
        None => Seq::empty(),
    }
}

/// The items with those of a monitor added.
pub open spec fn with_screen(w: World, all: Seq<RenderItem>, mi: usize) -> Seq<RenderItem> {
    let m = w.desk.list[mi as int];
    with_floats(w, with_tiles(w, all, mi, tag_places(w, m)), mi, m.tag, w.windows)
}

/// The items of monitors. The last monitor is the highest, and the first to claim its
/// windows.
pub open spec fn of_screens(w: World, order: Seq<usize>) -> Seq<RenderItem>
    decreases order.len(),
{
    if order.len() == 0 {
        Seq::empty()
    } else {
        with_screen(w, of_screens(w, order.drop_first()), order[0])
    }
}

/// The first monitor that holds a point; the number of them where none does.
pub open spec fn screen_place(list: Seq<Screen>, x: int, y: int) -> int
    decreases list.len(),
{
    if list.len() == 0 || in_rect(list[0].rect, x, y) {
        0
    } else {
        1 + screen_place(list.drop_first(), x, y)
    }
}

/// The monitor of a bar: the one that holds its point, or else the first.
pub open spec fn dock_screen(list: Seq<Screen>, x: int, y: int) -> int {
    let p = screen_place(list, x, y);
    if p < list.len() {
        p
    } else {
        0
    }
}

/// Where a bar goes: along an edge of a monitor, as high as it wants to be.
pub open spec fn dock_rect(r: Rect, anchor: DockAnchor, wanted: i32) -> Rect {
    let want = if wanted > 0 {
        wanted
    } else {
        28
    };
    let most = if r.h > 1 {
        r.h
    } else {
        1
    };
    let h = if want < most {
        want
    } else {
        most
    };
    Rect {
        x: r.x,
        y: match anchor {
            DockAnchor::Top => r.y,
            DockAnchor::Bottom => clip(r.y + r.h - h),
        },
        w: r.w,
        h,
    }
}

/// The item of a bar.
pub open spec fn dock_item(w: World, win: Window) -> RenderItem {
    let i = dock_screen(w.desk.list, win.float_geo.x as int, win.float_geo.y as int);
    RenderItem {
        mon: i as usize,
        win: win.id,
        rect: dock_rect(w.desk.list[i].rect, win.dock->0, win.dims.1),
        visible: true,
        layer: Layer::Dock,
        seq: win.raise_seq,
    }
}

/// The items with those of bars added.
pub open spec fn with_docks(w: World, all: Seq<RenderItem>, ws: Seq<Window>) -> Seq<RenderItem>
    decreases ws.len(),
{
    if ws.len() == 0 {
        all
    } else {
        let before = with_docks(w, all, ws.drop_last());
        if ws.last().dock is Some && w.desk.list.len() > 0 {
            claim(before, dock_item(w, ws.last()))
        } else {
            before
        }
    }
}

/// The items of all windows that are shown, in the order in which they are claimed.
pub open spec fn gathered(w: World) -> Seq<RenderItem> {
    with_docks(w, of_screens(w, stack_order(w.desk.list, w.desk.list.len())), w.windows)
}

// --- stacking -----------------------------------------------------------------------------

/// An item put in its place among those of its monitor: above all that it is not below.
pub open spec fn stack_in(s: Seq<RenderItem>, it: RenderItem) -> Seq<RenderItem>
    decreases s.len(),
{
    if s.len() == 0 || !below(it, s.last()) {
        s.push(it)
    } else {
        stack_in(s.drop_last(), it).push(s.last())
    }
}

/// The items of a monitor from the lowest to the highest.
pub open spec fn on_screen(all: Seq<RenderItem>, mi: usize) -> Seq<RenderItem>
    decreases all.len(),
{
    if all.len() == 0 {
        Seq::empty()
    } else if all.last().mon == mi {
        stack_in(on_screen(all.drop_last(), mi), all.last())
    } else {
        on_screen(all.drop_last(), mi)
    }
}

/// The items of monitors, monitor by monitor.
pub open spec fn on_screens(all: Seq<RenderItem>, order: Seq<usize>) -> Seq<RenderItem>
    decreases order.len(),
{
    if order.len() == 0 {
        Seq::empty()
    } else {
        on_screens(all, order.drop_last()) + on_screen(all, order.last())
    }
}

/// Where all windows go, from the lowest to the highest.
pub open spec fn layout(w: World) -> Seq<RenderItem> {
    on_screens(gathered(w), stack_order(w.desk.list, w.desk.list.len()))
}

// --- computing ----------------------------------------------------------------------------

/// Adds an item, unless its window is among the items.
fn put_claim(all: &mut Vec<RenderItem>, it: RenderItem)
    ensures
        final(all)@ == claim(old(all)@, it),
{
    let mut i: usize = 0;
    while i < all.len()
        invariant
            i <= all@.len(),
            all@ == old(all)@,
            forall|j: int| 0 <= j < i ==> (#[trigger] all@[j]).win != it.win,
        decreases all@.len() - i,
    {
        if all[i].win == it.win {
            assert(all@[i as int].win == it.win);
            return;
        }
        i += 1;
    }
    all.push(it);
}

/// Puts an item in its place among those of its monitor.
fn put_stacked(s: &mut Vec<RenderItem>, it: RenderItem)
    ensures
        final(s)@ == stack_in(old(s)@, it),
{
    let ghost all = s@;
    let mut i: usize = s.len();
    assert(all.take(all.len() as int) =~= all);
    assert(stack_in(all.take(i as int), it) + all.skip(i as int) =~= stack_in(all, it));
    while i > 0 && is_below(&it, &s[i - 1])
        invariant
            i <= s@.len(),
            s@ == all,
            stack_in(all.take(i as int), it) + all.skip(i as int) == stack_in(all, it),
        decreases i,
    {
        let ghost head = all.take(i as int);
        assert(head.last() == all[i - 1]);
        assert(head.drop_last() =~= all.take(i - 1));
        assert(all.skip(i - 1) =~= seq![all[i - 1]] + all.skip(i as int));
        assert(stack_in(all.take(i - 1), it).push(all[i - 1]) + all.skip(i as int) =~= stack_in(
            all.take(i - 1),
            it,
        ) + all.skip(i - 1));
        i -= 1;
    }
    proof {
        let head = all.take(i as int);
        if i > 0 {
            assert(head.last() == all[i - 1]);
        }
        assert(stack_in(head, it) == head.push(it));
        assert(all.insert(i as int, it) =~= head.push(it) + all.skip(i as int));
    }
    s.insert(i, it);
}

impl State {
    /// Whether a window is laid out apart from its tag's frames, and whether it fills
    /// its monitor.
    fn look_up(&self, id: WinId) -> (r: (bool, bool))
        requires
            self@.wf(),
        ensures
            r.0 == apart(self@, id),
            r.1 == (self@.has_win(id) && self@.win(id).fullscreen),
    {
        let i: usize = self.find_win(id);
        if i < self.windows.len() {
            let w = &self.windows[i];
            (self.win_floats(w) || w.dock.is_some(), w.fullscreen)
        } else {
            (false, false)
        }
    }

    /// Adds the items of the windows in the frames of a monitor's tag.
    fn put_tiles(&self, all: &mut Vec<RenderItem>, mi: usize)
        requires
            self@.wf(),
            mi < self@.desk.list.len(),
        ensures
            final(all)@ == with_tiles(
                self@,
                old(all)@,
                mi,
                tag_places(self@, self@.desk.list[mi as int]),
            ),
    {
        let ghost w = self@;
        let m = &self.monitors.list[mi];
        let ghost screen = w.desk.list[mi as int];
        let ti: usize = find_key(&self.tags, m.tag as u64);
        if ti == self.tags.len() {
            return;
        }
        assert(w.trees[ti as int].1 == self.tags@[ti as int].1@);
        proof {
            crate::state::lemma_tree_wf(w, screen.tag);
        }
        let tree = &self.tags[ti].1;
        let gap: i32 = if self.settings.smart_frame_surroundings && tree.is_single_leaf() {
            0
        } else {
            self.settings.window_gap
        };
        let u = m.usable();
        let width: i128 = u.w as i128 - 2 * gap as i128;
        let high: i128 = u.h as i128 - 2 * gap as i128;
        let area = Rect::new(
            clip_to(u.x as i128 + gap as i128),
            clip_to(u.y as i128 + gap as i128),
            clip_to(
                if width > 0 {
                    width
                } else {
                    0
                },
            ),
            clip_to(
                if high > 0 {
                    high
                } else {
                    0
                },
            ),
        );
        let ps = tree.placements(area, gap);
        assert(ps@ == tag_places(w, screen));
        let mut i: usize = 0;
        assert(ps@.take(0) =~= Seq::<Placement>::empty());
        while i < ps.len()
            invariant
                i <= ps@.len(),
                w == self@,
                w.wf(),
                all@ == with_tiles(w, old(all)@, mi, ps@.take(i as int)),
            decreases ps@.len() - i,
        {
            assert(ps@.take(i + 1).drop_last() =~= ps@.take(i as int));
            let p = ps[i];
            let (skip, full) = self.look_up(p.win);
            if !skip {
                put_claim(
                    all,
                    RenderItem {
                        mon: mi,
                        win: p.win,
                        rect: p.rect,
                        visible: p.visible,
                        layer: if full {
                            Layer::Fullscreen
                        } else {
                            Layer::Tiled
                        },
                        seq: 0,
                    },
                );
            }
            i += 1;
        }
        assert(ps@.take(i as int) =~= ps@);
    }

    /// Adds the items of the floating windows of a tag.
    fn put_floats(&self, all: &mut Vec<RenderItem>, mi: usize, tag: u32)
        ensures
            final(all)@ == with_floats(self@, old(all)@, mi, tag, self@.windows),
    {
        let ghost ws = self@.windows;
        let mut i: usize = 0;
        assert(ws.take(0) =~= Seq::<Window>::empty());
        while i < self.windows.len()
            invariant
                i <= self.windows@.len(),
                ws == self@.windows,
                all@ == with_floats(self@, old(all)@, mi, tag, ws.take(i as int)),
            decreases self.windows@.len() - i,
        {
            assert(ws.take(i + 1).drop_last() =~= ws.take(i as int));
            let win = &self.windows[i];
            if win.tag == tag && self.win_floats(win) {
                put_claim(
                    all,
                    RenderItem {
                        mon: mi,
                        win: win.id,
                        rect: win.float_geo,
                        visible: true,
                        layer: if win.fullscreen {
                            Layer::Fullscreen
                        } else {
                            Layer::Floating
                        },
                        seq: win.raise_seq,
                    },
                );
            }
            i += 1;
        }
        assert(ws.take(i as int) =~= ws);
    }

    /// The monitor of a bar.
    pub fn find_dock_screen(&self, x: i32, y: i32) -> (r: usize)
        requires
            self@.desk.list.len() > 0,
        ensures
            r == dock_screen(self@.desk.list, x as int, y as int),
            r < self@.desk.list.len(),
    {
        let ghost list = self@.desk.list;
        let mut i: usize = 0;
        assert(list.skip(0) =~= list);
        while i < self.monitors.list.len()
            invariant
                i <= self.monitors.list@.len() == list.len(),
                list == self@.desk.list,
                screen_place(list, x as int, y as int) == i + screen_place(
                    list.skip(i as int),
                    x as int,
                    y as int,
                ),
            decreases self.monitors.list@.len() - i,
        {
            assert(list.skip(i as int)[0] == list[i as int]);
            assert(list.skip(i as int).drop_first() =~= list.skip(i + 1));
            assert(list[i as int].rect == self.monitors.list@[i as int].rect);
            if rect_holds(self.monitors.list[i].rect, x as i128, y as i128) {
                return i;
            }
            i += 1;
        }
        0
    }

    /// Adds the items of bars.
    fn put_docks(&self, all: &mut Vec<RenderItem>)
        ensures
            final(all)@ == with_docks(self@, old(all)@, self@.windows),
    {
        let ghost ws = self@.windows;
        let mut i: usize = 0;
        assert(ws.take(0) =~= Seq::<Window>::empty());
        while i < self.windows.len()
            invariant
                i <= self.windows@.len(),
                ws == self@.windows,
                all@ == with_docks(self@, old(all)@, ws.take(i as int)),
            decreases self.windows@.len() - i,
        {
            assert(ws.take(i + 1).drop_last() =~= ws.take(i as int));
            let win = &self.windows[i];
            if let Some(anchor) = win.dock {
                if self.monitors.list.len() > 0 {
                    let mi: usize = self.find_dock_screen(win.float_geo.x, win.float_geo.y);
                    assert(self@.desk.list[mi as int].rect == self.monitors.list@[mi as int].rect);
                    let rect = dock_at(self.monitors.list[mi].rect, anchor, win.dims.1);
                    put_claim(
                        all,
                        RenderItem {
                            mon: mi,
                            win: win.id,
                            rect,
                            visible: true,
                            layer: Layer::Dock,
                            seq: win.raise_seq,
                        },
                    );
                }
            }
            i += 1;
        }
        assert(ws.take(i as int) =~= ws);
    }

    /// Where all windows go, from the lowest to the highest.
    pub fn compute_layout(&self) -> (r: Vec<RenderItem>)
        requires
            self@.wf(),
        ensures
            r@ == layout(self@),
    {
        let order = self.monitors.render_order();
        let mut all: Vec<RenderItem> = Vec::new();
        let mut n: usize = order.len();
        assert(order@.skip(n as int) =~= Seq::<usize>::empty());
        while n > 0
            invariant
                n <= order@.len() == order.len(),
                self@.wf(),
                forall|k: int| 0 <= k < order@.len() ==> order@[k] < self@.desk.list.len(),
                all@ == of_screens(self@, order@.skip(n as int)),
            decreases n,
        {
            n -= 1;
            let mi: usize = order[n];
            assert(order@.skip(n as int).drop_first() =~= order@.skip(n + 1));
            assert(order@.skip(n as int)[0] == mi);
            assert(order@[n as int] < self@.desk.list.len());
            self.put_tiles(&mut all, mi);
            let tag: u32 = self.monitors.list[mi].tag;
            self.put_floats(&mut all, mi, tag);
        }
        assert(order@.skip(0) =~= order@);
        self.put_docks(&mut all);
        stack_all(&all, &order)
    }
}

/// Where a bar goes.
fn dock_at(r: Rect, anchor: DockAnchor, wanted: i32) -> (d: Rect)
    ensures
        d == dock_rect(r, anchor, wanted),
{
    let want: i32 = if wanted > 0 {
        wanted
    } else {
        28
    };
    let most: i32 = if r.h > 1 {
        r.h
    } else {
        1
    };
    let h: i32 = if want < most {
        want
    } else {
        most
    };
    let y: i32 = match anchor {
        DockAnchor::Top => r.y,
        DockAnchor::Bottom => clip_to(r.y as i128 + r.h as i128 - h as i128),
    };
    Rect::new(r.x, y, r.w, h)
}

/// The items of a monitor from the lowest to the highest.
fn stack_one(all: &Vec<RenderItem>, mi: usize) -> (r: Vec<RenderItem>)
    ensures
        r@ == on_screen(all@, mi),
{
    let mut r: Vec<RenderItem> = Vec::new();
    let mut i: usize = 0;
    assert(all@.take(0) =~= Seq::<RenderItem>::empty());
    while i < all.len()
        invariant
            i <= all@.len(),
            r@ == on_screen(all@.take(i as int), mi),
        decreases all@.len() - i,
    {
        assert(all@.take(i + 1).drop_last() =~= all@.take(i as int));
        if all[i].mon == mi {
            put_stacked(&mut r, all[i]);
        }
        i += 1;
    }
    assert(all@.take(i as int) =~= all@);
    r
}

/// The items of monitors, monitor by monitor.
fn stack_all(all: &Vec<RenderItem>, order: &Vec<usize>) -> (r: Vec<RenderItem>)
    ensures
        r@ == on_screens(all@, order@),
{
    let mut r: Vec<RenderItem> = Vec::new();
    let mut i: usize = 0;
    assert(order@.take(0) =~= Seq::<usize>::empty());
    while i < order.len()
        invariant
            i <= order@.len(),
            r@ == on_screens(all@, order@.take(i as int)),
        decreases order@.len() - i,
    {
        assert(order@.take(i + 1).drop_last() =~= order@.take(i as int));
        let mut some = stack_one(all, order[i]);
        r.append(&mut some);
        i += 1;
    }
    assert(order@.take(i as int) =~= order@);
    r
}

} // verus!
