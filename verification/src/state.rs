//! The window manager's state, and the mathematical value that it stands for.

use vstd::prelude::*;
use crate::bar::{Bar, BarModel, ExecMode};
use crate::frame::{Frame, WinId};
use crate::launcher::{DesktopApp, Launcher, LauncherModel};
use crate::monitor::{
    clip, clip_to, divide, quotient, shrink, Desk, MonitorSel, Monitors, Rect, Selector, TagId,
};
use crate::rules::{Condition, DockAnchor, Rule};
use crate::table::{find_key, key_place, keys_differ, put, put_key, value_of};
use crate::text::Text;
use crate::theme::{is_dimming, Settings};
use crate::menu::{MenuModel, TrayMenu};
use crate::notices::{Notice, Notification};
use crate::tray::{Errand, TrayCmd, TrayEntry, TrayItem};
use crate::tree::{bare_leaf, Tree};
use crate::wallpaper::{Backdrop, WallpaperContent};

verus! {

/// A window.
#[derive(Debug)]
pub struct Window {
    pub id: WinId,
    /// The tag that it is on.
    pub tag: TagId,
    pub app_id: Option<String>,
    pub title: Option<String>,
    /// The size that it last had.
    pub dims: (i32, i32),
    pub fullscreen: bool,
    /// Whether the display was told of `fullscreen`.
    pub applied_fullscreen: bool,
    /// Whether it was told to draw no decoration.
    pub ssd_applied: bool,
    /// Whether it keeps its own size, in the middle of its place.
    pub pseudotile: bool,
    pub floating: bool,
    /// Where it is while it floats.
    pub float_geo: Rect,
    /// Its height among the floating windows.
    pub raise_seq: u64,
    /// Whether the rules were applied to it.
    pub rules_applied: bool,
    pub urgent: bool,
    /// The edge that it is a bar at.
    pub dock: Option<DockAnchor>,
}

/// An output of the display.
#[derive(Clone, Copy, Debug)]
pub struct Output {
    pub id: u64,
    pub geo: Rect,
    /// The number under which the display knows it.
    pub wl_name: Option<u32>,
}

/// A window that is moved or resized with the pointer.
#[derive(Clone, Copy, Debug, PartialEq, Eq, Structural)]
pub struct PointerOp {
    pub win: WinId,
    pub resize: bool,
    pub start_geo: Rect,
}

/// A key binding.
#[derive(Debug)]
pub struct KeyBind {
    pub id: u64,
    pub spec: String,
    pub command: Vec<String>,
}

/// A key binding, its strings as texts.
#[verifier::ext_equal]
pub ghost struct Binding {
    pub id: u64,
    pub spec: Text,
    pub command: Seq<Text>,
}

impl DeepView for KeyBind {
    type V = Binding;

    open spec fn deep_view(&self) -> Binding {
        Binding { id: self.id, spec: self.spec@, command: self.command.deep_view() }
    }
}

/// A pointer binding.
#[derive(Clone, Copy, Debug)]
pub struct MouseBind {
    pub id: u64,
    pub resize: bool,
}

/// What the display offers.
#[derive(Clone, Copy, Debug)]
pub struct Globals {
    pub wm: bool,
    pub compositor: bool,
    pub shm: bool,
    pub xkb_bindings: bool,
    pub tray: bool,
    /// What it takes to dim windows.
    pub dimming: bool,
    pub seats: usize,
}

/// What darkens a window.
#[derive(Clone, Copy, Debug, PartialEq, Eq, Structural)]
pub struct Overlay {
    pub shown: bool,
    pub w: i32,
    pub h: i32,
}

impl DeepView for Overlay {
    type V = Overlay;

    open spec fn deep_view(&self) -> Overlay {
        *self
    }
}

/// Something to be done outside, in order.
#[derive(Debug)]
pub enum Effect {
    /// Have the windows laid out again.
    Manage,
    /// Send a line to the clients that listen.
    Hook(String),
    /// Set a variable of the environment.
    Setenv(String, String),
    /// Run the start script again.
    Reload,
    /// Bind a key.
    BindKey { id: u64, mods: u32, keysym: u32 },
    /// Undo every key binding.
    UnbindKeys,
    /// Bind a pointer button.
    BindButton { id: u64, mods: u32, button: u32 },
    /// Undo every button binding.
    UnbindButtons,
    /// Make the dimming anew.
    RefreshDim,
    /// Show the bar.
    ShowBar,
    /// Take the bar away.
    HideBar,
    /// Start a module's command.
    StartModule { id: u64, command: String, mode: ExecMode },
    /// Stop the commands of all modules.
    StopModules,
    /// Give a monitor a background.
    ShowBackdrop(usize),
    /// Take a monitor's background away.
    HideBackdrop(usize),
    /// Show the launcher.
    ShowLauncher,
    /// Take the launcher away.
    HideLauncher,
    /// Tell an item of the tray something.
    TellTray(TrayCmd),
    /// Run a command of the shell.
    RunShell(String),
    /// Show the menu of a tray item.
    ShowMenu,
    /// Take the menu away.
    HideMenu,
    /// Show a notification.
    ShowNotice(u32),
    /// Take a notification away.
    HideNotice(u32),
    /// Take a notification away after so many milliseconds.
    ExpireNotice { notice: u32, ms: u64 },
}

/// Something to be done outside, its strings as texts.
pub ghost enum Deed {
    Manage,
    Hook(Text),
    Setenv(Text, Text),
    Reload,
    BindKey { id: u64, mods: u32, keysym: u32 },
    UnbindKeys,
    BindButton { id: u64, mods: u32, button: u32 },
    UnbindButtons,
    RefreshDim,
    ShowBar,
    HideBar,
    StartModule { id: u64, command: Text, mode: ExecMode },
    StopModules,
    ShowBackdrop(usize),
    HideBackdrop(usize),
    ShowLauncher,
    HideLauncher,
    TellTray(Errand),
    RunShell(Text),
    ShowMenu,
    HideMenu,
    ShowNotice(u32),
    HideNotice(u32),
    ExpireNotice { notice: u32, ms: u64 },
}

impl DeepView for Effect {
    type V = Deed;

    open spec fn deep_view(&self) -> Deed {
        match self {
            Effect::Manage => Deed::Manage,
            Effect::Hook(s) => Deed::Hook(s@),
            Effect::Setenv(a, b) => Deed::Setenv(a@, b@),
            Effect::Reload => Deed::Reload,
            Effect::BindKey { id, mods, keysym } => Deed::BindKey {
                id: *id,
                mods: *mods,
                keysym: *keysym,
            },
            Effect::UnbindKeys => Deed::UnbindKeys,
            Effect::BindButton { id, mods, button } => Deed::BindButton {
                id: *id,
                mods: *mods,
                button: *button,
            },
            Effect::UnbindButtons => Deed::UnbindButtons,
            Effect::RefreshDim => Deed::RefreshDim,
            Effect::ShowBar => Deed::ShowBar,
            Effect::HideBar => Deed::HideBar,
            Effect::StartModule { id, command, mode } => Deed::StartModule {
                id: *id,
                command: command@,
                mode: *mode,
            },
            Effect::StopModules => Deed::StopModules,
            Effect::ShowBackdrop(m) => Deed::ShowBackdrop(*m),
            Effect::HideBackdrop(m) => Deed::HideBackdrop(*m),
            Effect::ShowLauncher => Deed::ShowLauncher,
            Effect::HideLauncher => Deed::HideLauncher,
            Effect::TellTray(c) => Deed::TellTray(c@),
            Effect::RunShell(c) => Deed::RunShell(c@),
            Effect::ShowMenu => Deed::ShowMenu,
            Effect::HideMenu => Deed::HideMenu,
            Effect::ShowNotice(id) => Deed::ShowNotice(*id),
            Effect::HideNotice(id) => Deed::HideNotice(*id),
            Effect::ExpireNotice { notice, ms } => Deed::ExpireNotice { notice: *notice, ms: *ms },
        }
    }
}

impl DeepView for Frame {
    type V = Tree;

    open spec fn deep_view(&self) -> Tree {
        self.view()
    }
}

impl DeepView for Rect {
    type V = Rect;

    open spec fn deep_view(&self) -> Rect {
        *self
    }
}

impl DeepView for MonitorSel {
    type V = Selector;

    open spec fn deep_view(&self) -> Selector {
        self.view()
    }
}

/// All that the window manager knows.
#[derive(Debug)]
pub struct State {
    pub monitors: Monitors,
    /// The windows, by their numbers.
    pub windows: Vec<Window>,
    /// The number that the next window gets.
    pub next_win: WinId,
    /// The frame tree of each tag that has one.
    pub tags: Vec<(u64, Frame)>,
    pub settings: Settings,
    /// The tags whose windows all float.
    pub floating_tags: Vec<TagId>,
    /// The height that the next raised window gets.
    pub next_raise: u64,
    pub rules: Vec<Rule>,
    /// The monitors that tags are at home on.
    pub tag_monitor: Vec<(u64, MonitorSel)>,
    /// The tag that each monitor showed before.
    pub prev_tag: Vec<(u64, TagId)>,
    /// Where each window was last put.
    pub last_rects: Vec<(u64, Rect)>,
    /// The windows to be closed.
    pub pending_close: Vec<WinId>,
    pub user_attrs: Vec<(String, String)>,
    pub gesturebinds: Vec<(String, Vec<String>)>,
    pub keybinds: Vec<KeyBind>,
    pub mousebinds: Vec<MouseBind>,
    /// The number that the next binding gets.
    pub next_bind: u64,
    pub outputs: Vec<Output>,
    /// Whether the monitors follow the outputs.
    pub auto_monitors: bool,
    pub globals: Globals,
    pub bar: Option<Bar>,
    /// The number that the next module of a bar gets.
    pub next_bar_module: u64,
    pub wallpapers: Vec<(u64, WallpaperContent)>,
    pub tray_items: Vec<TrayItem>,
    pub launcher: Option<Launcher>,
    pub apps: Vec<DesktopApp>,
    /// The window under the pointer.
    pub pointer_focus: Option<WinId>,
    pub pointer_pos: (i32, i32),
    /// The window that is moved or resized with the pointer.
    pub op: Option<PointerOp>,
    /// The seats that start to move or resize a window, and whether they resize.
    pub pending_op_start: Vec<(usize, bool)>,
    /// The seats that end it.
    pub pending_op_end: Vec<usize>,
    pub tray_menu: Option<TrayMenu>,
    pub pointer_over_menu: bool,
    /// Where the pointer is on the menu.
    pub menu_pointer: (i32, i32),
    pub pointer_over_bar: bool,
    /// Where the pointer is on the bar.
    pub bar_pointer: (i32, i32),
    /// The button that was last pressed.
    pub last_pointer_button: u32,
    pub notifications: Vec<Notification>,
    /// What darkens windows.
    pub overlays: Vec<(u64, Overlay)>,
    /// The places of the backgrounds that were painted as they are.
    pub painted: Vec<(u64, Rect)>,
    /// What is to be done outside.
    pub effects: Vec<Effect>,
}

/// All that the window manager knows, as a mathematical value.
#[verifier::ext_equal]
pub ghost struct World {
    pub desk: Desk,
    pub windows: Seq<Window>,
    pub next_win: WinId,
    pub trees: Seq<(u64, Tree)>,
    pub settings: Settings,
    pub floating_tags: Seq<TagId>,
    pub next_raise: u64,
    pub rules: Seq<Condition>,
    pub tag_monitor: Seq<(u64, Selector)>,
    pub prev_tag: Seq<(u64, TagId)>,
    pub last_rects: Seq<(u64, Rect)>,
    pub pending_close: Seq<WinId>,
    pub user_attrs: Seq<(Text, Text)>,
    pub gesturebinds: Seq<(Text, Seq<Text>)>,
    pub keybinds: Seq<Binding>,
    pub mousebinds: Seq<MouseBind>,
    pub next_bind: u64,
    pub outputs: Seq<Output>,
    pub auto_monitors: bool,
    pub globals: Globals,
    pub bar: Option<BarModel>,
    pub next_bar_module: u64,
    pub wallpapers: Seq<(u64, Backdrop)>,
    pub tray_items: Seq<TrayEntry>,
    pub launcher: Option<LauncherModel>,
    pub apps: Seq<(Text, Text)>,
    pub pointer_focus: Option<WinId>,
    pub pointer_pos: (i32, i32),
    pub op: Option<PointerOp>,
    pub pending_op_start: Seq<(usize, bool)>,
    pub pending_op_end: Seq<usize>,
    pub tray_menu: Option<MenuModel>,
    pub pointer_over_menu: bool,
    pub menu_pointer: (i32, i32),
    pub pointer_over_bar: bool,
    pub bar_pointer: (i32, i32),
    pub last_pointer_button: u32,
    pub notifications: Seq<Notice>,
    pub overlays: Seq<(u64, Overlay)>,
    pub painted: Seq<(u64, Rect)>,
    pub effects: Seq<Deed>,
}

impl View for State {
    type V = World;

    open spec fn view(&self) -> World {
        World {
            desk: self.monitors@,
            windows: self.windows@,
            next_win: self.next_win,
            trees: self.tags.deep_view(),
            settings: self.settings,
            floating_tags: self.floating_tags@,
            next_raise: self.next_raise,
            rules: self.rules.deep_view(),
            tag_monitor: self.tag_monitor.deep_view(),
            prev_tag: self.prev_tag.deep_view(),
            last_rects: self.last_rects.deep_view(),
            pending_close: self.pending_close@,
            user_attrs: self.user_attrs.deep_view(),
            gesturebinds: self.gesturebinds.deep_view(),
            keybinds: self.keybinds.deep_view(),
            mousebinds: self.mousebinds@,
            next_bind: self.next_bind,
            outputs: self.outputs@,
            auto_monitors: self.auto_monitors,
            globals: self.globals,
            bar: self.bar.deep_view(),
            next_bar_module: self.next_bar_module,
            wallpapers: self.wallpapers.deep_view(),
            tray_items: self.tray_items.deep_view(),
            launcher: self.launcher.deep_view(),
            apps: self.apps.deep_view(),
            pointer_focus: self.pointer_focus,
            pointer_pos: self.pointer_pos,
            op: self.op,
            pending_op_start: self.pending_op_start@,
            pending_op_end: self.pending_op_end@,
            tray_menu: self.tray_menu.deep_view(),
            pointer_over_menu: self.pointer_over_menu,
            menu_pointer: self.menu_pointer,
            pointer_over_bar: self.pointer_over_bar,
            bar_pointer: self.bar_pointer,
            last_pointer_button: self.last_pointer_button,
            notifications: self.notifications.deep_view(),
            overlays: self.overlays.deep_view(),
            painted: self.painted.deep_view(),
            effects: self.effects.deep_view(),
        }
    }
}

/// The place of a window among the windows; their number where it is not there.
pub open spec fn win_place(windows: Seq<Window>, id: WinId) -> int
    decreases windows.len(),
{
    if windows.len() == 0 || windows[0].id == id {
        0
    } else {
        1 + win_place(windows.drop_first(), id)
    }
}

/// The number after `n`, held at the end of the range.
pub open spec fn bump(n: u64) -> u64 {
    if n < u64::MAX {
        (n + 1) as u64
    } else {
        n
    }
}

/// The number after `n`, held at the end of the range.
pub fn bumped(n: u64) -> (r: u64)
    ensures
        r == bump(n),
{
    if n < u64::MAX {
        n + 1
    } else {
        n
    }
}

/// The windows are in the order of their numbers, all of them below `next`.
#[verifier::opaque]
pub open spec fn in_number_order(windows: Seq<Window>, next: WinId) -> bool {
    &&& forall|i: int, j: int|
        0 <= i < j < windows.len() ==> (#[trigger] windows[i]).id < (#[trigger] windows[j]).id
    &&& forall|i: int| 0 <= i < windows.len() ==> (#[trigger] windows[i]).id < next
}

/// Every tag has one tree, a sound one.
#[verifier::opaque]
pub open spec fn sound_trees(trees: Seq<(u64, Tree)>) -> bool {
    &&& keys_differ(trees)
    &&& forall|i: int| 0 <= i < trees.len() ==> (#[trigger] trees[i]).1.wf()
}

impl World {
    /// The focus is on a monitor; the windows are in the order of their numbers, all
    /// handed out; every tag has one tree, a sound one.
    pub open spec fn wf(self) -> bool {
        &&& self.desk.wf()
        &&& in_number_order(self.windows, self.next_win)
        &&& sound_trees(self.trees)
        &&& is_dimming(self.settings.inactive_dim)
    }

    /// Whether there is such a window.
    pub open spec fn has_win(self, id: WinId) -> bool {
        win_place(self.windows, id) < self.windows.len()
    }

    /// The window of the number.
    pub open spec fn win(self, id: WinId) -> Window {
        self.windows[win_place(self.windows, id)]
    }

    /// A window replaced, where there is one of its number.
    pub open spec fn with_win(self, id: WinId, w: Window) -> World {
        if self.has_win(id) {
            World { windows: self.windows.update(win_place(self.windows, id), w), ..self }
        } else {
            self
        }
    }

    /// The tag that the focused monitor shows; the first where no monitor is focused.
    pub open spec fn focused_tag(self) -> TagId {
        if self.desk.focus < self.desk.list.len() {
            self.desk.list[self.desk.focus].tag
        } else {
            1
        }
    }

    /// The part of the focused monitor that windows are laid out in.
    pub open spec fn focused_area(self) -> Rect {
        if self.desk.focus < self.desk.list.len() {
            shrink(self.desk.list[self.desk.focus].rect, self.desk.list[self.desk.focus].pad)
        } else {
            Rect { x: 0, y: 0, w: 0, h: 0 }
        }
    }

    /// A tag's tree, where it has one.
    pub open spec fn tree(self, tag: TagId) -> Option<Tree> {
        value_of(self.trees, tag as u64)
    }

    /// A tag's tree, or the one that it starts with.
    pub open spec fn tree_or_new(self, tag: TagId) -> Tree {
        match self.tree(tag) {
            Some(t) => t,
            None => bare_leaf(self.settings.default_frame_layout),
        }
    }

    /// A tag's tree replaced.
    pub open spec fn with_tree(self, tag: TagId, t: Tree) -> World {
        World { trees: put(self.trees, tag as u64, t), ..self }
    }

    /// The focused tag's tree replaced by what `f` makes of it.
    pub open spec fn map_tree(self, f: spec_fn(Tree) -> Tree) -> World {
        self.with_tree(self.focused_tag(), f(self.tree_or_new(self.focused_tag())))
    }

    /// A tag's tree, where it has one, replaced by what is left without a window.
    pub open spec fn without_leaf(self, tag: TagId, id: WinId) -> World {
        match self.tree(tag) {
            Some(t) => self.with_tree(tag, t.remove(id)),
            None => self,
        }
    }

    /// A window inserted into a tag's tree.
    pub open spec fn with_leaf(self, tag: TagId, id: WinId) -> World {
        self.with_tree(tag, self.tree_or_new(tag).insert(id))
    }

    /// The window that has the focus.
    pub open spec fn focused_window(self) -> Option<WinId> {
        match self.tree(self.focused_tag()) {
            Some(t) => t.focused_window(),
            None => None,
        }
    }

    /// Whether a window floats: by itself, or with its tag.
    pub open spec fn floats(self, w: Window) -> bool {
        w.floating || self.floating_tags.contains(w.tag)
    }

    /// Where a window goes that starts to float: the middle of the focused monitor.
    pub open spec fn default_float_geo(self) -> Rect {
        let a = self.focused_area();
        let w = quotient(a.w as int, 2);
        let h = quotient(a.h as int, 2);
        Rect {
            x: clip(a.x + quotient(a.w as int, 4)),
            y: clip(a.y + quotient(a.h as int, 4)),
            w: if w > 160 {
                w as i32
            } else {
                160
            },
            h: if h > 120 {
                h as i32
            } else {
                120
            },
        }
    }

    /// Where a window was last put, or else where it goes when it starts to float.
    pub open spec fn last_or_default(self, id: WinId) -> Rect {
        match value_of(self.last_rects, id) {
            Some(r) => r,
            None => self.default_float_geo(),
        }
    }

    /// One more thing to be done outside.
    pub open spec fn then_do(self, d: Deed) -> World {
        World { effects: self.effects.push(d), ..self }
    }

    /// The windows to be laid out again.
    pub open spec fn manage(self) -> World {
        self.then_do(Deed::Manage)
    }

    /// The tag that the focused monitor shows remembered as the one before.
    pub open spec fn remember(self) -> World {
        if self.desk.focus < self.desk.list.len() {
            World {
                prev_tag: put(
                    self.prev_tag,
                    self.desk.focus as u64,
                    self.desk.list[self.desk.focus].tag,
                ),
                ..self
            }
        } else {
            self
        }
    }

    /// A window made to float at a place, unless it floats.
    pub open spec fn make_floating(self, id: WinId, geo: Rect) -> World {
        if self.has_win(id) && !self.win(id).floating {
            World {
                next_raise: bump(self.next_raise),
                ..self.with_win(
                    id,
                    Window {
                        floating: true,
                        float_geo: geo,
                        raise_seq: self.next_raise,
                        ..self.win(id)
                    },
                )
            }
        } else {
            self
        }
    }

    /// A window made a bar at an edge of the focused monitor.
    pub open spec fn make_dock(self, id: WinId, anchor: DockAnchor) -> World {
        let at = if self.desk.focus < self.desk.list.len() {
            let r = self.desk.list[self.desk.focus].rect;
            Rect { x: r.x, y: r.y, w: 0, h: 0 }
        } else {
            Rect { x: 0, y: 0, w: 0, h: 0 }
        };
        World {
            next_raise: bump(self.next_raise),
            ..self.with_win(
                id,
                Window {
                    dock: Some(anchor),
                    floating: false,
                    raise_seq: self.next_raise,
                    float_geo: at,
                    ..self.win(id)
                },
            )
        }
    }
}

/// Changing windows but for their numbers keeps the state sound.
pub proof fn lemma_mapped_wf(w: World, f: spec_fn(Window) -> Window)
    requires
        w.wf(),
        forall|x: Window| (#[trigger] f(x)).id == x.id,
    ensures
        (World { windows: w.windows.map_values(f), ..w }).wf(),
{
    reveal(in_number_order);
    let ws = w.windows.map_values(f);
    assert forall|i: int| 0 <= i < ws.len() implies (#[trigger] ws[i]).id == w.windows[i].id by {}
}

/// What `win_place` finds.
pub proof fn lemma_win_place(windows: Seq<Window>, id: WinId)
    ensures
        0 <= win_place(windows, id) <= windows.len(),
        win_place(windows, id) < windows.len() ==> windows[win_place(windows, id)].id == id,
        forall|j: int| 0 <= j < win_place(windows, id) ==> (#[trigger] windows[j]).id != id,
    decreases windows.len(),
{
    if windows.len() > 0 && windows[0].id != id {
        lemma_win_place(windows.drop_first(), id);
        assert forall|j: int| 0 <= j < win_place(windows, id) implies (#[trigger] windows[j]).id != id by {
            if j > 0 {
                assert(windows[j] == windows.drop_first()[j - 1]);
            }
        }
    }
}

/// Changing a window but for its number keeps the state sound.
pub proof fn lemma_with_win_wf(w: World, id: WinId, new: Window)
    requires
        w.wf(),
        new.id == id,
    ensures
        w.with_win(id, new).wf(),
{
    lemma_win_place(w.windows, id);
    reveal(in_number_order);
}

/// A window put in its own place changes nothing.
pub proof fn lemma_with_same_win(w: World, id: WinId)
    ensures
        w.with_win(id, w.win(id)) == w,
{
    lemma_win_place(w.windows, id);
    if w.has_win(id) {
        assert(w.with_win(id, w.win(id)).windows =~= w.windows);
    }
}

/// Giving a tag a sound tree keeps the state sound.
pub proof fn lemma_with_tree_wf(w: World, tag: TagId, t: Tree)
    requires
        w.wf(),
        t.wf(),
    ensures
        w.with_tree(tag, t).wf(),
{
    reveal(sound_trees);
    crate::table::law_put(w.trees, tag as u64, t, 0);
    crate::table::lemma_key_place(w.trees, tag as u64);
    let s = w.with_tree(tag, t).trees;
    assert forall|i: int| 0 <= i < s.len() implies (#[trigger] s[i]).1.wf() by {
        if i < w.trees.len() && i != key_place(w.trees, tag as u64) {
            assert(s[i] == w.trees[i]);
        }
    }
}

/// A tag's tree is sound.
pub proof fn lemma_tree_wf(w: World, tag: TagId)
    requires
        w.wf(),
    ensures
        w.tree_or_new(tag).wf(),
        w.tree(tag) is Some ==> w.tree(tag)->0.wf(),
{
    reveal(sound_trees);
    crate::table::lemma_key_place(w.trees, tag as u64);
    if w.tree(tag) is Some {
        assert(w.trees[key_place(w.trees, tag as u64)].1.wf());
    }
}

impl State {
    /// Adds something to be done outside.
    pub fn perform(&mut self, e: Effect)
        ensures
            final(self)@ == old(self)@.then_do(e.deep_view()),
            final(self).same_but_effects(*old(self)),
    {
        self.effects.push(e);
        assert(self.effects.deep_view() =~= old(self).effects.deep_view().push(e.deep_view()));
    }

    /// All but what is to be done outside is as it was.
    pub open spec fn same_but_effects(self, o: State) -> bool {
        self == (State { effects: self.effects, ..o })
    }

    /// Has the windows laid out again.
    pub fn request_manage(&mut self)
        ensures
            final(self)@ == old(self)@.manage(),
    {
        self.perform(Effect::Manage);
    }

    /// The place of a window.
    pub fn find_win(&self, id: WinId) -> (r: usize)
        ensures
            r == win_place(self@.windows, id),
            r <= self.windows@.len(),
            r < self.windows@.len() ==> self.windows@[r as int].id == id,
    {
        let ghost all = self.windows@;
        let mut i: usize = 0;
        assert(all.skip(0) =~= all);
        while i < self.windows.len() && self.windows[i].id != id
            invariant
                i <= self.windows@.len(),
                all == self.windows@,
                win_place(all, id) == i + win_place(all.skip(i as int), id),
            decreases self.windows@.len() - i,
        {
            assert(all.skip(i as int)[0] == all[i as int]);
            assert(all.skip(i as int).drop_first() =~= all.skip(i + 1));
            i += 1;
        }
        proof {
            if i < all.len() {
                assert(all.skip(i as int)[0] == all[i as int]);
            }
        }
        i
    }

    /// The window of a number, to be changed.
    pub fn win_mut(&mut self, id: WinId) -> (r: Option<&mut Window>)
        requires
            old(self)@.wf(),
        ensures
            r is Some <==> old(self)@.has_win(id),
            r matches Some(w) ==> {
                &&& *w == old(self)@.win(id)
                &&& w.id == id
                &&& final(self)@ == old(self)@.with_win(id, *final(w))
                &&& final(w).id == id ==> final(self)@.wf()
            },
            r is None ==> *final(self) == *old(self),
    {
        let i: usize = self.find_win(id);
        if i < self.windows.len() {
            proof {
                assert forall|new: Window| new.id == id implies #[trigger] old(self)@.with_win(
                    id,
                    new,
                ).wf() by {
                    lemma_with_win_wf(old(self)@, id, new);
                }
            }
            Some(&mut self.windows[i])
        } else {
            None
        }
    }

    /// The tag that the focused monitor shows.
    pub fn focused_tag(&self) -> (r: TagId)
        requires
            self@.wf(),
        ensures
            r == self@.focused_tag(),
    {
        match self.monitors.focused() {
            Some(m) => m.tag,
            None => 1,
        }
    }

    /// The part of the focused monitor that windows are laid out in.
    pub fn focused_area(&self) -> (r: Rect)
        requires
            self@.desk.wf(),
        ensures
            r == self@.focused_area(),
    {
        match self.monitors.focused() {
            Some(m) => m.usable(),
            None => Rect::new(0, 0, 0, 0),
        }
    }

    /// A tag's tree, made where it has none, to be changed.
    pub fn tag_tree_mut(&mut self, tag: TagId) -> (r: &mut Frame)
        ensures
            r@ == old(self)@.tree_or_new(tag),
            final(self)@ == old(self)@.with_tree(tag, final(r)@),
    {
        let i: usize = find_key(&self.tags, tag as u64);
        if i == self.tags.len() {
            let layout = self.settings.default_frame_layout;
            self.tags.push((tag as u64, Frame::with_layout(layout)));
        }
        let ghost mid = self.tags@;
        let r = &mut self.tags[i].1;
        proof {
            assert(after_borrow(self).tags@ == mid.update(i as int, (tag as u64, *final(r))));
            assert(after_borrow(self).tags.deep_view() =~= put(
                old(self).tags.deep_view(),
                tag as u64,
                final(r)@,
            ));
        }
        r
    }

    /// The window that has the focus.
    pub fn focused_window(&self) -> (r: Option<WinId>)
        requires
            self@.wf(),
        ensures
            r == self@.focused_window(),
    {
        let tag: TagId = self.focused_tag();
        let i: usize = find_key(&self.tags, tag as u64);
        if i < self.tags.len() {
            assert(self@.trees[i as int].1 == self.tags@[i as int].1@);
            self.tags[i].1.focused_window()
        } else {
            None
        }
    }

    /// Whether a tag's windows all float.
    pub fn tag_floats(&self, tag: TagId) -> (r: bool)
        ensures
            r == self@.floating_tags.contains(tag),
    {
        let mut i: usize = 0;
        while i < self.floating_tags.len()
            invariant
                i <= self.floating_tags@.len(),
                forall|j: int| 0 <= j < i ==> #[trigger] self.floating_tags@[j] != tag,
            decreases self.floating_tags@.len() - i,
        {
            if self.floating_tags[i] == tag {
                return true;
            }
            i += 1;
        }
        false
    }

    /// Whether a window floats.
    pub fn win_floats(&self, w: &Window) -> (r: bool)
        ensures
            r == self@.floats(*w),
    {
        w.floating || self.tag_floats(w.tag)
    }

    /// Where a window goes that starts to float.
    pub fn default_float_geo(&self) -> (r: Rect)
        requires
            self@.desk.wf(),
        ensures
            r == self@.default_float_geo(),
    {
        let a = self.focused_area();
        let w: i128 = divide(a.w as i128, 2);
        let h: i128 = divide(a.h as i128, 2);
        Rect::new(
            clip_to(a.x as i128 + divide(a.w as i128, 4)),
            clip_to(a.y as i128 + divide(a.h as i128, 4)),
            if w > 160 {
                w as i32
            } else {
                160
            },
            if h > 120 {
                h as i32
            } else {
                120
            },
        )
    }

    /// Where a window was last put, or else where it goes when it starts to float.
    pub fn last_or_default(&self, id: WinId) -> (r: Rect)
        requires
            self@.wf(),
        ensures
            r == self@.last_or_default(id),
    {
        let i: usize = find_key(&self.last_rects, id);
        if i < self.last_rects.len() {
            assert(self@.last_rects[i as int] == self.last_rects@[i as int]);
            self.last_rects[i].1
        } else {
            self.default_float_geo()
        }
    }

    /// Remembers the tag that the focused monitor shows as the one before.
    pub fn remember_prev_tag(&mut self)
        requires
            old(self)@.wf(),
        ensures
            final(self)@ == old(self)@.remember(),
            final(self)@.wf(),
    {
        if self.monitors.focus < self.monitors.list.len() {
            let tag: TagId = self.monitors.list[self.monitors.focus].tag;
            put_key(&mut self.prev_tag, self.monitors.focus as u64, tag);
        }
    }

    /// Makes a window float at a place, unless it floats.
    pub fn make_floating(&mut self, id: WinId, geo: Rect)
        requires
            old(self)@.wf(),
        ensures
            final(self)@ == old(self)@.make_floating(id, geo),
            final(self)@.wf(),
    {
        let seq: u64 = self.next_raise;
        let mut changed: bool = false;
        if let Some(w) = self.win_mut(id) {
            if !w.floating {
                w.floating = true;
                w.float_geo = geo;
                w.raise_seq = seq;
                changed = true;
            }
        }
        if changed {
            self.next_raise = bumped(seq);
        } else {
            proof {
                lemma_with_same_win(old(self)@, id);
            }
        }
    }

    /// Makes a window a bar at an edge of the focused monitor.
    pub fn make_dock(&mut self, id: WinId, anchor: DockAnchor)
        requires
            old(self)@.wf(),
        ensures
            final(self)@ == old(self)@.make_dock(id, anchor),
            final(self)@.wf(),
    {
        let seq: u64 = self.next_raise;
        let at = if self.monitors.focus < self.monitors.list.len() {
            let r = self.monitors.list[self.monitors.focus].rect;
            Rect::new(r.x, r.y, 0, 0)
        } else {
            Rect::new(0, 0, 0, 0)
        };
        if let Some(w) = self.win_mut(id) {
            w.dock = Some(anchor);
            w.floating = false;
            w.raise_seq = seq;
            w.float_geo = at;
        }
        self.next_raise = bumped(seq);
    }
}

} // verus!
