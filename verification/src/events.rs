//! What happens to windows, seats and bindings.

use vstd::prelude::*;
use crate::attr::{drop_client_attrs, without_prefix};
use crate::cmd_window::{emit_three, focus_win, focus_window_by_id, hook_three, take_leaf};
use crate::frame::WinId;
use crate::monitor::{clip, clip_to, Rect};
use crate::number::{show, u64_text};
use crate::rules::{give_leaf, reapply_rules};
use crate::state::{
    bump, bumped, in_number_order, lemma_win_place, win_place, PointerOp, State, Window, World,
};
use crate::table::{drop_key, remove_key};
use crate::text::Text;

verus! {

// --- windows ------------------------------------------------------------------------------

/// A window as it starts.
pub open spec fn fresh_window(id: WinId, tag: u32) -> Window {
    Window {
        id,
        tag,
        app_id: None,
        title: None,
        dims: (0, 0),
        fullscreen: false,
        applied_fullscreen: false,
        ssd_applied: false,
        pseudotile: false,
        floating: false,
        float_geo: Rect { x: 0, y: 0, w: 0, h: 0 },
        raise_seq: 0,
        rules_applied: false,
        urgent: false,
        dock: None,
    }
}

impl Window {
    /// A window as it starts.
    pub fn new(id: WinId, tag: u32) -> (r: Window)
        ensures
            r == fresh_window(id, tag),
    {
        Window {
            id,
            tag,
            app_id: None,
            title: None,
            dims: (0, 0),
            fullscreen: false,
            applied_fullscreen: false,
            ssd_applied: false,
            pseudotile: false,
            floating: false,
            float_geo: Rect::new(0, 0, 0, 0),
            raise_seq: 0,
            rules_applied: false,
            urgent: false,
            dock: None,
        }
    }
}

/// A new window: it goes to the tag that the focused monitor shows.
pub open spec fn window_added(w: World) -> World {
    let v = World {
        windows: w.windows.push(fresh_window(w.next_win, w.focused_tag())),
        next_win: bump(w.next_win),
        ..w
    };
    v.with_leaf(w.focused_tag(), w.next_win).manage()
}

/// A window gone, with all that was known of it.
pub open spec fn window_closed(w: World, id: WinId) -> World {
    if w.has_win(id) {
        let v = (World {
            windows: w.windows.remove(win_place(w.windows, id)),
            overlays: drop_key(w.overlays, id),
            ..w
        }).without_leaf(w.win(id).tag, id);
        (World {
            user_attrs: without_prefix(v.user_attrs, "clients."@ + show(id as nat) + "."@),
            ..v
        }).manage()
    } else {
        w.manage()
    }
}

/// The text that is there, or an empty one.
pub open spec fn text_or_empty(t: Option<Text>) -> Text {
    match t {
        Some(s) => s,
        None => Seq::empty(),
    }
}

/// A window with another title.
pub open spec fn window_titled(w: World, id: WinId, title: Option<String>) -> World {
    let v = w.with_win(id, Window { title, ..w.win(id) });
    let u = if v.focused_window() == Some(id) {
        hook_three(v, "window_title_changed"@, show(id as nat), text_or_empty(title.deep_view()))
    } else {
        v
    };
    reapply_rules(u, id)
}

/// Taking a window out keeps the others in order.
proof fn lemma_window_removed(w: World, id: WinId)
    requires
        w.wf(),
        w.has_win(id),
    ensures
        (World { windows: w.windows.remove(win_place(w.windows, id)), overlays: drop_key(w.overlays, id), ..w }).wf(),
{
    lemma_win_place(w.windows, id);
    reveal(in_number_order);
    let p = win_place(w.windows, id);
    let s = w.windows.remove(p);
    assert forall|i: int, j: int| 0 <= i < j < s.len() implies (#[trigger] s[i]).id < (#[trigger] s[j]).id by {
        let a = if i < p {
            i
        } else {
            i + 1
        };
        let b = if j < p {
            j
        } else {
            j + 1
        };
        assert(s[i] == w.windows[a] && s[j] == w.windows[b]);
    }
    assert forall|i: int| 0 <= i < s.len() implies (#[trigger] s[i]).id < w.next_win by {
        let a = if i < p {
            i
        } else {
            i + 1
        };
        assert(s[i] == w.windows[a]);
    }
}

impl State {
    /// Takes a new window in; gives its number.
    pub fn window_added(&mut self) -> (r: WinId)
        requires
            old(self)@.wf(),
            old(self)@.next_win < u64::MAX,
        ensures
            r == old(self)@.next_win,
            final(self)@ == window_added(old(self)@),
            final(self)@.wf(),
    {
        let id: WinId = self.next_win;
        let tag: u32 = self.focused_tag();
        self.next_win = bumped(id);
        self.windows.push(Window::new(id, tag));
        proof {
            reveal(in_number_order);
        }
        give_leaf(self, tag, id);
        self.request_manage();
        id
    }

    /// Lets a window go.
    pub fn window_closed(&mut self, id: WinId)
        requires
            old(self)@.wf(),
        ensures
            final(self)@ == window_closed(old(self)@, id),
            final(self)@.wf(),
    {
        let i: usize = self.find_win(id);
        if i < self.windows.len() {
            proof {
                lemma_window_removed(self@, id);
            }
            let w = self.windows.remove(i);
            remove_key(&mut self.overlays, id);
            take_leaf(self, w.tag, id);
            drop_client_attrs(self, id);
        }
        self.request_manage();
    }

    /// Notes the application that a window belongs to.
    pub fn window_app_id(&mut self, id: WinId, app_id: Option<String>)
        requires
            old(self)@.wf(),
        ensures
            final(self)@ == reapply_rules(
                old(self)@.with_win(id, (Window { app_id, ..old(self)@.win(id) })),
                id,
            ),
            final(self)@.wf(),
    {
        self.set_app_id(id, app_id);
        self.reapply_rules(id);
    }

    fn set_app_id(&mut self, id: WinId, app_id: Option<String>)
        requires
            old(self)@.wf(),
        ensures
            final(self)@ == old(self)@.with_win(id, (Window { app_id, ..old(self)@.win(id) })),
            final(self)@.wf(),
    {
        if let Some(w) = self.win_mut(id) {
            w.app_id = app_id;
        }
    }

    fn set_title(&mut self, id: WinId, title: Option<String>)
        requires
            old(self)@.wf(),
        ensures
            final(self)@ == old(self)@.with_win(id, (Window { title, ..old(self)@.win(id) })),
            final(self)@.wf(),
    {
        if let Some(w) = self.win_mut(id) {
            w.title = title;
        }
    }

    /// Notes the title of a window.
    pub fn window_title(&mut self, id: WinId, title: Option<String>)
        requires
            old(self)@.wf(),
        ensures
            final(self)@ == window_titled(old(self)@, id, title),
            final(self)@.wf(),
    {
        let t: String = match &title {
            Some(s) => s.clone(),
            None => String::new(),
        };
        assert(t@ =~= text_or_empty(title.deep_view()));
        self.set_title(id, title);
        if self.focused_window() == Some(id) {
            emit_three(self, "window_title_changed", u64_text(id).as_str(), t.as_str());
        }
        self.reapply_rules(id);
    }

    /// Notes the size of a window.
    pub fn window_dimensions(&mut self, id: WinId, w: i32, h: i32)
        requires
            old(self)@.wf(),
        ensures
            final(self)@ == old(self)@.with_win(id, (Window { dims: (w, h), ..old(self)@.win(id) })),
            final(self)@.wf(),
    {
        if let Some(x) = self.win_mut(id) {
            x.dims = (w, h);
        }
    }

    /// Notes one more seat.
    pub fn seat_added(&mut self)
        requires
            old(self)@.wf(),
        ensures
            final(self)@.globals.seats == (if old(self)@.globals.seats < usize::MAX {
                (old(self)@.globals.seats + 1) as usize
            } else {
                usize::MAX
            }),
            final(self)@ == (World { globals: final(self)@.globals, ..old(self)@ }),
            final(self)@.globals == (crate::state::Globals {
                seats: final(self)@.globals.seats,
                ..old(self)@.globals
            }),
            final(self)@.wf(),
    {
        if self.globals.seats < usize::MAX {
            self.globals.seats = self.globals.seats + 1;
        }
    }
}

// --- the pointer --------------------------------------------------------------------------

/// The pointer over a window, or over none: the window gets the focus where that follows
/// the pointer.
pub open spec fn pointer_entered(w: World, win: Option<WinId>) -> World {
    let v = World { pointer_focus: win, ..w };
    match win {
        Some(id) => if w.settings.focus_follows_mouse {
            focus_win(v, id).manage()
        } else {
            v
        },
        None => v,
    }
}

/// Where a window is that is moved or resized by so much.
pub open spec fn op_moved(op: PointerOp, dx: int, dy: int) -> Rect {
    let g = op.start_geo;
    if op.resize {
        Rect {
            x: g.x,
            y: g.y,
            w: if g.w + dx > 60 {
                clip(g.w + dx)
            } else {
                60
            },
            h: if g.h + dy > 40 {
                clip(g.h + dy)
            } else {
                40
            },
        }
    } else {
        Rect { x: clip(g.x + dx), y: clip(g.y + dy), w: g.w, h: g.h }
    }
}

/// A window that is put at a place is there.
proof fn lemma_dragged(w: World, id: WinId, geo: Rect)
    requires
        w.has_win(id),
    ensures
        w.with_win(id, (Window { float_geo: geo, ..w.win(id) })).manage().win(id).float_geo == geo,
{
    lemma_win_place(w.windows, id);
    crate::rule_laws::lemma_found(w, id, Window { float_geo: geo, ..w.win(id) });
}

impl State {
    /// The pointer came over a window, or over none.
    pub fn pointer_enter(&mut self, win: Option<WinId>)
        requires
            old(self)@.wf(),
        ensures
            final(self)@ == pointer_entered(old(self)@, win),
            final(self)@.wf(),
    {
        self.pointer_focus = win;
        if self.settings.focus_follows_mouse {
            if let Some(id) = win {
                focus_window_by_id(self, id);
                self.request_manage();
            }
        }
    }

    /// The pointer left its window.
    pub fn pointer_leave(&mut self)
        requires
            old(self)@.wf(),
        ensures
            final(self)@ == (World { pointer_focus: None, ..old(self)@ }),
            final(self)@.wf(),
    {
        self.pointer_focus = None;
    }

    /// The pointer moved.
    pub fn pointer_position(&mut self, x: i32, y: i32)
        requires
            old(self)@.wf(),
        ensures
            final(self)@ == (World { pointer_pos: (x, y), ..old(self)@ }),
            final(self)@.wf(),
    {
        self.pointer_pos = (x, y);
    }

    /// A window was clicked.
    pub fn window_interaction(&mut self, id: WinId)
        requires
            old(self)@.wf(),
        ensures
            final(self)@ == focus_win(old(self)@, id).manage(),
            final(self)@.wf(),
    {
        focus_window_by_id(self, id);
        self.request_manage();
    }

    /// The pointer moved by so much since a window started to be moved or resized.
    #[verifier::rlimit(40)]
    pub fn op_delta(&mut self, dx: i32, dy: i32)
        requires
            old(self)@.wf(),
        ensures
            final(self)@ == (match old(self)@.op {
                Some(op) => old(self)@.with_win(
                    op.win,
                    (Window {
                        float_geo: op_moved(op, dx as int, dy as int),
                        ..old(self)@.win(op.win)
                    }),
                ).manage(),
                None => old(self)@,
            }),
            old(self)@.op is Some && old(self)@.has_win(old(self)@.op->0.win) ==> ({
                let op = old(self)@.op->0;
                let g = op.start_geo;
                let r = final(self)@.win(op.win).float_geo;
                &&& op.resize && 60 <= g.w + dx <= i32::MAX && 40 <= g.h + dy <= i32::MAX ==> r.x == g.x && r.y
                    == g.y && r.x + r.w == g.x + g.w + dx && r.y + r.h == g.y + g.h + dy
                &&& !op.resize && i32::MIN <= g.x + dx <= i32::MAX && i32::MIN <= g.y + dy <= i32::MAX ==> r.x
                    == g.x + dx && r.y == g.y + dy && r.w == g.w && r.h == g.h
            }),
            final(self)@.wf(),
    {
        let op = match self.op {
            None => {
                return;
            },
            Some(op) => op,
        };
        let g = op.start_geo;
        let geo = if op.resize {
            let w: i128 = g.w as i128 + dx as i128;
            let h: i128 = g.h as i128 + dy as i128;
            Rect::new(
                g.x,
                g.y,
                if w > 60 {
                    clip_to(w)
                } else {
                    60
                },
                if h > 40 {
                    clip_to(h)
                } else {
                    40
                },
            )
        } else {
            Rect::new(
                clip_to(g.x as i128 + dx as i128),
                clip_to(g.y as i128 + dy as i128),
                g.w,
                g.h,
            )
        };
        assert(geo == op_moved(op, dx as int, dy as int));
        proof {
            if self@.has_win(op.win) {
                lemma_dragged(self@, op.win, geo);
            }
        }
        self.put_float_geo(op.win, geo);
        self.request_manage();
    }

    fn put_float_geo(&mut self, id: WinId, geo: Rect)
        requires
            old(self)@.wf(),
        ensures
            final(self)@ == old(self)@.with_win(id, (Window { float_geo: geo, ..old(self)@.win(id) })),
            final(self)@.wf(),
    {
        if let Some(w) = self.win_mut(id) {
            w.float_geo = geo;
        }
    }

    /// A seat lets go of the window that it moves or resizes.
    pub fn op_release(&mut self, seat: usize)
        requires
            old(self)@.wf(),
        ensures
            final(self)@ == (World {
                pending_op_end: old(self)@.pending_op_end.push(seat),
                ..old(self)@
            }).manage(),
            final(self)@.wf(),
    {
        self.pending_op_end.push(seat);
        self.request_manage();
    }

    /// The place of a button binding.
    fn find_mousebind(&self, id: u64) -> (r: usize)
        ensures
            r == mouse_place(self@.mousebinds, id),
            r <= self.mousebinds@.len(),
    {
        let ghost all = self.mousebinds@;
        let mut i: usize = 0;
        assert(all.skip(0) =~= all);
        while i < self.mousebinds.len() && self.mousebinds[i].id != id
            invariant
                i <= self.mousebinds@.len(),
                all == self.mousebinds@,
                mouse_place(all, id) == i + mouse_place(all.skip(i as int), id),
            decreases self.mousebinds@.len() - i,
        {
            assert(all.skip(i as int)[0] == all[i as int]);
            assert(all.skip(i as int).drop_first() =~= all.skip(i + 1));
            i += 1;
        }
        if i < self.mousebinds.len() {
            assert(all.skip(i as int)[0] == all[i as int]);
        }
        i
    }

    /// The button of a binding was pressed: its seat starts to move or resize a window.
    pub fn button_pressed(&mut self, id: u64)
        requires
            old(self)@.wf(),
        ensures
            ({
                let w = old(self)@;
                let p = mouse_place(w.mousebinds, id);
                final(self)@ == (if p < w.mousebinds.len() {
                    (World {
                        pending_op_start: w.pending_op_start.push((0, w.mousebinds[p].resize)),
                        ..w
                    }).manage()
                } else {
                    w
                })
            }),
            final(self)@.wf(),
    {
        let i: usize = self.find_mousebind(id);
        if i < self.mousebinds.len() {
            let resize: bool = self.mousebinds[i].resize;
            self.pending_op_start.push((0, resize));
            self.request_manage();
        }
    }

    /// The button of a binding was let go of: its seat ends it.
    pub fn button_released(&mut self, id: u64)
        requires
            old(self)@.wf(),
        ensures
            ({
                let w = old(self)@;
                final(self)@ == (if mouse_place(w.mousebinds, id) < w.mousebinds.len() {
                    (World { pending_op_end: w.pending_op_end.push(0), ..w }).manage()
                } else {
                    w
                })
            }),
            final(self)@.wf(),
    {
        let i: usize = self.find_mousebind(id);
        if i < self.mousebinds.len() {
            self.pending_op_end.push(0);
            self.request_manage();
        }
    }

    /// The command of a key binding.
    pub fn key_command(&self, id: u64) -> (r: Option<Vec<String>>)
        ensures
            r.deep_view() == (if key_bind_place(self@.keybinds, id) < self@.keybinds.len() {
                Some(self@.keybinds[key_bind_place(self@.keybinds, id)].command)
            } else {
                None
            }),
    {
        let ghost all = self@.keybinds;
        let mut i: usize = 0;
        assert(all.skip(0) =~= all);
        while i < self.keybinds.len()
            invariant
                i <= self.keybinds@.len() == all.len(),
                all == self@.keybinds,
                key_bind_place(all, id) == i + key_bind_place(all.skip(i as int), id),
            decreases all.len() - i,
        {
            assert(all.skip(i as int)[0] == self.keybinds@[i as int].deep_view());
            assert(all.skip(i as int).drop_first() =~= all.skip(i + 1));
            if self.keybinds[i].id == id {
                return Some(self.keybinds[i].command.clone());
            }
            i += 1;
        }
        None
    }
}

/// The place of a button binding; their number where it is not there.
pub open spec fn mouse_place(s: Seq<crate::state::MouseBind>, id: u64) -> int
    decreases s.len(),
{
    if s.len() == 0 || s[0].id == id {
        0
    } else {
        1 + mouse_place(s.drop_first(), id)
    }
}

/// The place of a key binding; their number where it is not there.
pub open spec fn key_bind_place(s: Seq<crate::state::Binding>, id: u64) -> int
    decreases s.len(),
{
    if s.len() == 0 || s[0].id == id {
        0
    } else {
        1 + key_bind_place(s.drop_first(), id)
    }
}

// --- laws ---------------------------------------------------------------------------------

/// A new window is known, is on the tag of the focused monitor, and has the focus of that
/// tag's frames.
pub proof fn law_new_window(w: World)
    requires
        w.wf(),
        w.next_win < u64::MAX,
    ensures
        window_added(w).has_win(w.next_win),
        window_added(w).win(w.next_win).tag == w.focused_tag(),
        window_added(w).windows.len() == w.windows.len() + 1,
        window_added(w).tree(w.focused_tag()) == Some(w.tree_or_new(w.focused_tag()).insert(w.next_win)),
{
    reveal(in_number_order);
    reveal(crate::state::sound_trees);
    let v = window_added(w);
    lemma_win_place(v.windows, w.next_win);
    assert(v.windows.last().id == w.next_win);
    let p = win_place(v.windows, w.next_win);
    if p == v.windows.len() {
        assert(v.windows[v.windows.len() - 1].id != w.next_win);
    }
    if p < v.windows.len() - 1 {
        assert(v.windows[p].id < v.windows[v.windows.len() - 1].id) by {
            assert(v.windows[p] == w.windows[p]);
        }
    }
    crate::table::law_put(
        w.trees,
        w.focused_tag() as u64,
        w.tree_or_new(w.focused_tag()).insert(w.next_win),
        w.focused_tag() as u64,
    );
}

/// A window that is gone is known no more, and all others are as they were.
pub proof fn law_closed_window(w: World, id: WinId, other: WinId)
    requires
        w.wf(),
        w.has_win(id),
        other != id,
    ensures
        !window_closed(w, id).has_win(id),
        window_closed(w, id).has_win(other) == w.has_win(other),
        w.has_win(other) ==> window_closed(w, id).win(other) == w.win(other),
{
    reveal(in_number_order);
    let v = window_closed(w, id);
    let p = win_place(w.windows, id);
    lemma_win_place(w.windows, id);
    lemma_win_place(w.windows, other);
    lemma_win_place(v.windows, id);
    lemma_win_place(v.windows, other);
    assert(v.windows == w.windows.remove(p));
    let s = v.windows;
    if v.has_win(id) {
        let k = win_place(s, id);
        let a = if k < p {
            k
        } else {
            k + 1
        };
        assert(s[k] == w.windows[a]);
        assert(w.windows[a].id == w.windows[p].id && a != p);
    }
    if w.has_win(other) {
        let k = win_place(w.windows, other);
        let b = if k < p {
            k
        } else {
            k - 1
        };
        assert(s[b] == w.windows[k]);
        let q = win_place(s, other);
        assert(q <= b);
        if q < b {
            let a = if q < p {
                q
            } else {
                q + 1
            };
            assert(s[q] == w.windows[a]);
            assert(a < k);
        }
    }
    if v.has_win(other) {
        let q = win_place(s, other);
        let a = if q < p {
            q
        } else {
            q + 1
        };
        assert(s[q] == w.windows[a]);
        assert(w.windows[a].id == other);
    }
}

} // verus!
