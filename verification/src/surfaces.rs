//! The pointer and the keyboard over the bar and the menu of a tray item.

use vstd::prelude::*;
use crate::bar::{BarModel, BarModule, Goal, HitKind, HitZone, Part, Zone};
use crate::layout::dock_screen;
use crate::menu::{any_shown, columns_of, menu_hit, shown, spot, Line, MenuModel, MenuNode, TrayMenu};
use crate::monitor::{clip, clip_to};
use crate::state::{Deed, Effect, State, World};
use crate::text::{same, Text};
use crate::tray::{Errand, TrayCmd, TrayEntry, TrayItem};

verus! {

/// The code of the left button.
pub const BTN_LEFT: u32 = 0x110;

/// The code of the right button.
pub const BTN_RIGHT: u32 = 0x111;

/// The code of the middle button.
pub const BTN_MIDDLE: u32 = 0x112;

// --- the bar ------------------------------------------------------------------------------

/// The first zone that holds a place; the number of zones where none does.
pub open spec fn zone_place(zones: Seq<Zone>, x: int) -> int
    decreases zones.len(),
{
    if zones.len() == 0 || zones[0].x0 <= x < zones[0].x1 {
        0
    } else {
        1 + zone_place(zones.drop_first(), x)
    }
}

/// The command of a click on a module; none where there is none.
pub open spec fn click_command(parts: Seq<Part>, id: u64, button: u32) -> Option<Text>
    decreases parts.len(),
{
    if parts.len() == 0 {
        None
    } else {
        let here = match parts[0] {
            Part::Reader(e) => if e.id == id {
                if button == BTN_RIGHT {
                    e.rclick
                } else {
                    e.lclick
                }
            } else {
                None
            },
            _ => None,
        };
        match here {
            Some(c) => Some(c),
            None => click_command(parts.drop_first(), id, button),
        }
    }
}

/// The place of a tray item; their number where it is not there.
pub open spec fn item_place(items: Seq<TrayEntry>, key: Text) -> int
    decreases items.len(),
{
    if items.len() == 0 || items[0].key == key {
        0
    } else {
        1 + item_place(items.drop_first(), key)
    }
}

/// Whether a tray item has nothing but a menu.
pub open spec fn menu_only(items: Seq<TrayEntry>, key: Text) -> bool {
    item_place(items, key) < items.len() && items[item_place(items, key)].is_menu
}

/// What a tray item is told when it is clicked.
pub open spec fn item_errand(key: Text, button: u32, only: bool, x: i32, y: i32) -> Errand {
    if button == BTN_RIGHT {
        Errand::OpenMenu { key, x, y }
    } else if button == BTN_MIDDLE {
        Errand::SecondaryActivate { key, x, y }
    } else if only {
        Errand::OpenMenu { key, x, y }
    } else {
        Errand::Activate { key, x, y }
    }
}

/// A click on the bar: the command of a module is run, or a tray item is told.
pub open spec fn bar_clicked(w: World, x: int, button: u32) -> World {
    match w.bar {
        None => w,
        Some(b) => {
            let p = zone_place(b.hit, x);
            if p >= b.hit.len() {
                w
            } else {
                let z = b.hit[p];
                match z.goal {
                    Goal::Exec(id) => match click_command(b.parts, id, button) {
                        Some(c) => w.then_do(Deed::RunShell(c)),
                        None => w,
                    },
                    Goal::Tray(key) => if w.globals.tray {
                        w.then_do(
                            Deed::TellTray(
                                item_errand(
                                    key,
                                    button,
                                    menu_only(w.tray_items, key),
                                    clip(b.origin.0 + z.x0),
                                    clip(b.origin.1 + b.height),
                                ),
                            ),
                        )
                    } else {
                        w
                    },
                }
            }
        },
    }
}

/// A turn of the wheel over the bar: the tray item under the pointer is told which way it
/// went; nothing is told where it did not turn.
pub open spec fn bar_scrolled(w: World, horizontal: bool, turn: int) -> World {
    match w.bar {
        Some(b) => {
            let p = zone_place(b.hit, w.bar_pointer.0 as int);
            if turn == 0 || p >= b.hit.len() || !w.globals.tray {
                w
            } else {
                match b.hit[p].goal {
                    Goal::Tray(key) => w.then_do(
                        Deed::TellTray(
                            Errand::Scroll {
                                key,
                                delta: if turn > 0 {
                                    1i32
                                } else {
                                    -1i32
                                },
                                horizontal,
                            },
                        ),
                    ),
                    _ => w,
                }
            }
        },
        None => w,
    }
}

/// The first zone that holds a place.
fn find_zone(zones: &Vec<HitZone>, x: i32) -> (r: usize)
    ensures
        r == zone_place(zones.deep_view(), x as int),
        r <= zones@.len(),
{
    let ghost all = zones.deep_view();
    let mut i: usize = 0;
    assert(all.skip(0) =~= all);
    while i < zones.len() && !(zones[i].x0 <= x && x < zones[i].x1)
        invariant
            i <= zones@.len() == all.len(),
            all == zones.deep_view(),
            zone_place(all, x as int) == i + zone_place(all.skip(i as int), x as int),
        decreases zones@.len() - i,
    {
        assert(all.skip(i as int)[0] == zones@[i as int].deep_view());
        assert(all.skip(i as int).drop_first() =~= all.skip(i + 1));
        i += 1;
    }
    if i < zones.len() {
        assert(all.skip(i as int)[0] == zones@[i as int].deep_view());
    }
    i
}

/// The command of a click on a module.
fn find_click(modules: &Vec<BarModule>, id: u64, button: u32) -> (r: Option<String>)
    ensures
        r.deep_view() == click_command(modules.deep_view(), id, button),
{
    let ghost all = modules.deep_view();
    let mut i: usize = 0;
    assert(all.skip(0) =~= all);
    while i < modules.len()
        invariant
            i <= modules@.len() == all.len(),
            all == modules.deep_view(),
            click_command(all, id, button) == click_command(all.skip(i as int), id, button),
        decreases modules@.len() - i,
    {
        assert(all.skip(i as int)[0] == modules@[i as int].deep_view());
        assert(all.skip(i as int).drop_first() =~= all.skip(i + 1));
        if let BarModule::Executor(e) = &modules[i] {
            if e.id == id {
                if button == BTN_RIGHT {
                    if let Some(c) = &e.rclick {
                        return Some(c.clone());
                    }
                } else {
                    if let Some(c) = &e.lclick {
                        return Some(c.clone());
                    }
                }
            }
        }
        i += 1;
    }
    None
}

/// The place of a tray item.
fn find_item(items: &Vec<TrayItem>, key: &str) -> (r: usize)
    ensures
        r == item_place(items.deep_view(), key@),
        r <= items@.len(),
{
    let ghost all = items.deep_view();
    let mut i: usize = 0;
    assert(all.skip(0) =~= all);
    while i < items.len() && !same(items[i].key.as_str(), key)
        invariant
            i <= items@.len() == all.len(),
            all == items.deep_view(),
            item_place(all, key@) == i + item_place(all.skip(i as int), key@),
        decreases items@.len() - i,
    {
        assert(all.skip(i as int)[0] == items@[i as int].deep_view());
        assert(all.skip(i as int).drop_first() =~= all.skip(i + 1));
        i += 1;
    }
    if i < items.len() {
        assert(all.skip(i as int)[0] == items@[i as int].deep_view());
    }
    i
}

impl State {
    /// A button was pressed over the bar.
    pub fn bar_click(&mut self, lx: i32, button: u32)
        requires
            old(self)@.wf(),
        ensures
            final(self)@ == bar_clicked(old(self)@, lx as int, button),
            final(self)@.wf(),
    {
        let effect: Option<Effect> = match &self.bar {
            None => None,
            Some(b) => {
                let i: usize = find_zone(&b.hit, lx);
                if i == b.hit.len() {
                    None
                } else {
                    assert(b.deep_view().hit[i as int] == b.hit@[i as int].deep_view());
                    match &b.hit[i].kind {
                        HitKind::Exec(id) => match find_click(&b.modules, *id, button) {
                            Some(c) => Some(Effect::RunShell(c)),
                            None => None,
                        },
                        HitKind::Tray(key) => if self.globals.tray {
                            let at: usize = find_item(&self.tray_items, key.as_str());
                            let only: bool = at < self.tray_items.len() && self.tray_items[at].is_menu;
                            assert(at < self.tray_items@.len() ==> self@.tray_items[at as int]
                                == self.tray_items@[at as int].deep_view());
                            let x: i32 = clip_to(b.origin.0 as i128 + b.hit[i].x0 as i128);
                            let y: i32 = clip_to(b.origin.1 as i128 + b.height as i128);
                            Some(Effect::TellTray(errand_of(key, button, only, x, y)))
                        } else {
                            None
                        },
                    }
                }
            },
        };
        if let Some(e) = effect {
            self.perform(e);
        }
    }

    /// The wheel was turned over the bar.
    pub fn bar_scroll(&mut self, horizontal: bool, turn: i32)
        requires
            old(self)@.wf(),
        ensures
            final(self)@ == bar_scrolled(old(self)@, horizontal, turn as int),
            final(self)@.wf(),
    {
        if turn == 0 || !self.globals.tray {
            return;
        }
        let effect: Option<Effect> = match &self.bar {
            None => None,
            Some(b) => {
                let i: usize = find_zone(&b.hit, self.bar_pointer.0);
                if i == b.hit.len() {
                    None
                } else {
                    assert(b.deep_view().hit[i as int] == b.hit@[i as int].deep_view());
                    match &b.hit[i].kind {
                        HitKind::Exec(_) => None,
                        HitKind::Tray(key) => {
                            let delta: i32 = if turn > 0 {
                                1
                            } else {
                                -1
                            };
                            Some(
                                Effect::TellTray(
                                    TrayCmd::Scroll { key: key.clone(), delta, horizontal },
                                ),
                            )
                        },
                    }
                }
            },
        };
        if let Some(e) = effect {
            self.perform(e);
        }
    }
}

/// What a tray item is told when it is clicked.
fn errand_of(key: &String, button: u32, only: bool, x: i32, y: i32) -> (r: TrayCmd)
    ensures
        r@ == item_errand(key@, button, only, x, y),
{
    let key = key.clone();
    if button == BTN_RIGHT {
        TrayCmd::OpenMenu { key, x, y }
    } else if button == BTN_MIDDLE {
        TrayCmd::SecondaryActivate { key, x, y }
    } else if only {
        TrayCmd::OpenMenu { key, x, y }
    } else {
        TrayCmd::Activate { key, x, y }
    }
}

// --- what modules show --------------------------------------------------------------------

/// The place of a module that shows what a command prints; the number of modules where
/// it is not there.
pub open spec fn reader_place(parts: Seq<Part>, id: u64) -> int
    decreases parts.len(),
{
    if parts.len() == 0 || (parts[0] is Reader && parts[0]->Reader_0.id == id) {
        0
    } else {
        1 + reader_place(parts.drop_first(), id)
    }
}

/// A module that shows another text.
pub open spec fn module_text_set(w: World, id: u64, text: Text) -> World {
    match w.bar {
        None => w,
        Some(b) => {
            let p = reader_place(b.parts, id);
            if p < b.parts.len() {
                let e = b.parts[p]->Reader_0;
                (World {
                    bar: Some(
                        BarModel {
                            parts: b.parts.update(
                                p,
                                Part::Reader(crate::bar::Reader { text, ..e }),
                            ),
                            ..b
                        },
                    ),
                    ..w
                }).manage()
            } else {
                w
            }
        },
    }
}

/// Sets the text of a module.
fn put_text(modules: &mut Vec<BarModule>, id: u64, text: String) -> (r: bool)
    ensures
        ({
            let parts = old(modules).deep_view();
            let p = reader_place(parts, id);
            if p < parts.len() {
                &&& r
                &&& final(modules).deep_view() == parts.update(
                    p,
                    Part::Reader(crate::bar::Reader { text: text@, ..parts[p]->Reader_0 }),
                )
            } else {
                &&& !r
                &&& final(modules).deep_view() == parts
            }
        }),
{
    let ghost all = modules.deep_view();
    let mut i: usize = 0;
    assert(all.skip(0) =~= all);
    while i < modules.len()
        invariant
            i <= modules@.len() == all.len(),
            all == modules.deep_view(),
            *modules == *old(modules),
            reader_place(all, id) == i + reader_place(all.skip(i as int), id),
        decreases modules@.len() - i,
    {
        assert(all.skip(i as int)[0] == modules@[i as int].deep_view());
        assert(all.skip(i as int).drop_first() =~= all.skip(i + 1));
        let here: bool = match &modules[i] {
            BarModule::Executor(e) => e.id == id,
            _ => false,
        };
        if here {
            if let BarModule::Executor(e) = &mut modules[i] {
                e.text = text;
            }
            assert(modules.deep_view() =~= all.update(
                i as int,
                Part::Reader(crate::bar::Reader { text: text@, ..all[i as int]->Reader_0 }),
            ));
            return true;
        }
        i += 1;
    }
    false
}

impl State {
    /// Has a module show another text.
    pub fn set_bar_module_text(&mut self, id: u64, text: String)
        requires
            old(self)@.wf(),
        ensures
            final(self)@ == module_text_set(old(self)@, id, text@),
            final(self)@.wf(),
    {
        let mut found: bool = false;
        if let Some(b) = &mut self.bar {
            found = put_text(&mut b.modules, id, text);
        }
        if found {
            self.request_manage();
        }
    }
}

// --- the menu -----------------------------------------------------------------------------

/// The menu taken away, where it is open.
pub open spec fn menu_closed(w: World) -> World {
    if w.tray_menu is Some {
        (World { tray_menu: None, pointer_over_menu: false, ..w }).then_do(Deed::HideMenu).manage()
    } else {
        w
    }
}

/// The menu of a tray item opened, in place of any that is open.
pub open spec fn menu_opened(w: World, key: Text, items: Seq<MenuNode>, anchor: (i32, i32)) -> World {
    let v = menu_closed(w);
    if shown(items).len() == 0 || !v.globals.compositor || !v.globals.wm || v.desk.list.len() == 0 {
        v
    } else {
        (World {
            tray_menu: Some(
                MenuModel {
                    key,
                    root: items,
                    anchor,
                    mon: v.desk.list[dock_screen(v.desk.list, anchor.0 as int, anchor.1 as int)].rect,
                    open_path: Seq::empty(),
                    hover: None,
                    columns: Seq::empty(),
                },
            ),
            ..v
        }).then_do(Deed::ShowMenu).manage()
    }
}

/// Whether a row opens a menu of its own.
pub open spec fn row_opens(cols: Seq<Seq<Line>>, col: int, row: int) -> bool {
    col < cols.len() && row < cols[col].len() && cols[col][row].has_submenu && !cols[col][row].is_separator
}

/// The rows whose menus are open while the pointer is at a row.
pub open spec fn path_at(m: MenuModel, at: Option<(usize, usize)>) -> Seq<usize> {
    match at {
        None => m.open_path,
        Some((col, row)) => {
            let base = if col < m.open_path.len() {
                m.open_path.take(col as int)
            } else {
                m.open_path
            };
            if row_opens(columns_of(m.root, m.open_path), col as int, row as int) {
                base.push(row)
            } else {
                base
            }
        },
    }
}

/// The pointer moved over the menu.
pub open spec fn menu_moved(w: World, x: i32, y: i32) -> World {
    let v = World { menu_pointer: (x, y), ..w };
    match w.tray_menu {
        None => v,
        Some(m) => {
            let at = spot(m.columns, x as int, y as int);
            let path = path_at(m, at);
            if at != m.hover || path != m.open_path {
                (World {
                    tray_menu: Some(MenuModel { hover: at, open_path: path, ..m }),
                    ..v
                }).manage()
            } else {
                v
            }
        },
    }
}

/// A click on the menu: beside it, it is taken away; on a row that opens a menu, that is
/// opened; on another row that can be clicked, the item is told.
pub open spec fn menu_clicked(w: World, x: i32, y: i32) -> World {
    match w.tray_menu {
        None => w,
        Some(m) => match spot(m.columns, x as int, y as int) {
            None => menu_closed(w),
            Some((col, row)) => {
                let cols = columns_of(m.root, m.open_path);
                if col >= cols.len() || row >= cols[col as int].len() {
                    w
                } else {
                    let l = cols[col as int][row as int];
                    if l.is_separator || !l.enabled {
                        w
                    } else if l.has_submenu {
                        let base = if col < m.open_path.len() {
                            m.open_path.take(col as int)
                        } else {
                            m.open_path
                        };
                        (World {
                            tray_menu: Some(MenuModel { open_path: base.push(row), ..m }),
                            ..w
                        }).manage()
                    } else if w.globals.tray {
                        menu_closed(
                            w.then_do(Deed::TellTray(Errand::MenuClicked { key: m.key, id: l.id })),
                        )
                    } else {
                        menu_closed(w)
                    }
                }
            },
        },
    }
}

/// Whether two paths are the same.
fn same_path(a: &Vec<usize>, b: &Vec<usize>) -> (r: bool)
    ensures
        r == (a@ == b@),
{
    if a.len() != b.len() {
        return false;
    }
    let mut i: usize = 0;
    while i < a.len()
        invariant
            i <= a@.len() == b@.len(),
            forall|j: int| 0 <= j < i ==> a@[j] == b@[j],
        decreases a@.len() - i,
    {
        if a[i] != b[i] {
            assert(a@[i as int] != b@[i as int]);
            return false;
        }
        i += 1;
    }
    assert(a@ =~= b@);
    true
}

/// The beginning of a path.
fn path_before(path: &Vec<usize>, n: usize) -> (r: Vec<usize>)
    ensures
        r@ == (if n < path@.len() {
            path@.take(n as int)
        } else {
            path@
        }),
{
    let mut r: Vec<usize> = Vec::new();
    let mut i: usize = 0;
    while i < path.len() && i < n
        invariant
            i <= path@.len(),
            i <= n,
            r@ == path@.take(i as int),
        decreases path@.len() - i,
    {
        r.push(path[i]);
        i += 1;
        assert(r@ =~= path@.take(i as int));
    }
    assert(n >= path@.len() ==> path@.take(i as int) =~= path@);
    r
}

impl State {
    /// Takes the menu away.
    pub fn close_tray_menu(&mut self)
        requires
            old(self)@.wf(),
        ensures
            final(self)@ == menu_closed(old(self)@),
            final(self)@.wf(),
    {
        if self.tray_menu.is_some() {
            self.tray_menu = None;
            self.pointer_over_menu = false;
            self.perform(Effect::HideMenu);
            self.request_manage();
        }
    }

    /// Opens the menu of a tray item.
    pub fn open_tray_menu(&mut self, key: String, items: Vec<MenuNode>, anchor: (i32, i32))
        requires
            old(self)@.wf(),
        ensures
            final(self)@ == menu_opened(old(self)@, key@, items@, anchor),
            final(self)@.wf(),
    {
        self.close_tray_menu();
        if !any_shown(&items) || !self.globals.compositor || !self.globals.wm
            || self.monitors.list.len() == 0 {
            return;
        }
        let i: usize = self.find_dock_screen(anchor.0, anchor.1);
        assert(self@.desk.list[i as int].rect == self.monitors.list@[i as int].rect);
        let mon = self.monitors.list[i].rect;
        let m = TrayMenu {
            key,
            root: items,
            anchor,
            mon,
            open_path: Vec::new(),
            hover: None,
            columns: Vec::new(),
        };
        assert(m.columns.deep_view() =~= Seq::empty());
        assert(m.open_path@ =~= Seq::empty());
        self.tray_menu = Some(m);
        self.perform(Effect::ShowMenu);
        self.request_manage();
    }

    /// The pointer moved over the menu.
    pub fn menu_pointer_moved(&mut self, sx: i32, sy: i32)
        requires
            old(self)@.wf(),
        ensures
            final(self)@ == menu_moved(old(self)@, sx, sy),
            final(self)@.wf(),
    {
        self.menu_pointer = (sx, sy);
        let mut changed: bool = false;
        if let Some(m) = &mut self.tray_menu {
            let at = menu_hit(&m.columns, sx, sy);
            let path = m.path_for(at);
            if at != m.hover || !same_path(&path, &m.open_path) {
                m.hover = at;
                m.open_path = path;
                changed = true;
            }
        }
        if changed {
            self.request_manage();
        }
    }

    /// A button was pressed over the menu.
    pub fn menu_click(&mut self, sx: i32, sy: i32)
        requires
            old(self)@.wf(),
        ensures
            final(self)@ == menu_clicked(old(self)@, sx, sy),
            final(self)@.wf(),
    {
        let step: Click = match &self.tray_menu {
            None => Click::Nothing,
            Some(m) => m.click(sx, sy),
        };
        match step {
            Click::Nothing => {},
            Click::Beside => {
                self.close_tray_menu();
            },
            Click::Open(col, row) => {
                if let Some(m) = &mut self.tray_menu {
                    let mut path = path_before(&m.open_path, col);
                    path.push(row);
                    m.open_path = path;
                }
                self.request_manage();
            },
            Click::Tell(key, id) => {
                if self.globals.tray {
                    self.perform(Effect::TellTray(TrayCmd::MenuClicked { key, id }));
                }
                self.close_tray_menu();
            },
        }
    }

    /// A key was pressed while the menu is open.
    pub fn menu_key(&mut self, escape: bool)
        requires
            old(self)@.wf(),
        ensures
            final(self)@ == (if escape {
                menu_closed(old(self)@)
            } else {
                old(self)@
            }),
            final(self)@.wf(),
    {
        if escape {
            self.close_tray_menu();
        }
    }
}

/// What a click on the menu comes to.
enum Click {
    Nothing,
    Beside,
    Open(usize, usize),
    Tell(String, i32),
}

impl TrayMenu {
    /// The rows whose menus are open while the pointer is at a row.
    fn path_for(&self, at: Option<(usize, usize)>) -> (r: Vec<usize>)
        ensures
            r@ == path_at(self.deep_view(), at),
    {
        match at {
            None => self.open_path.clone(),
            Some((col, row)) => {
                let cols = self.columns_nodes();
                let ghost all = cols.deep_view();
                let mut path = path_before(&self.open_path, col);
                if col < cols.len() {
                    assert(all[col as int] == cols@[col as int].deep_view());
                    if row < cols[col].len() {
                        assert(all[col as int][row as int] == cols@[col as int]@[row as int].deep_view());
                        if cols[col][row].has_submenu && !cols[col][row].is_separator {
                            path.push(row);
                        }
                    }
                }
                path
            },
        }
    }

    /// What a click comes to.
    fn click(&self, sx: i32, sy: i32) -> (r: Click)
        ensures
            ({
                let m = self.deep_view();
                match spot(m.columns, sx as int, sy as int) {
                    None => r is Beside,
                    Some((col, row)) => {
                        let cols = columns_of(m.root, m.open_path);
                        if col >= cols.len() || row >= cols[col as int].len() {
                            r is Nothing
                        } else {
                            let l = cols[col as int][row as int];
                            if l.is_separator || !l.enabled {
                                r is Nothing
                            } else if l.has_submenu {
                                r == Click::Open(col, row)
                            } else {
                                r matches Click::Tell(k, id) && k@ == m.key && id == l.id
                            }
                        }
                    },
                }
            }),
    {
        match menu_hit(&self.columns, sx, sy) {
            None => Click::Beside,
            Some((col, row)) => {
                let cols = self.columns_nodes();
                let ghost all = cols.deep_view();
                if col >= cols.len() {
                    return Click::Nothing;
                }
                assert(all[col as int] == cols@[col as int].deep_view());
                if row >= cols[col].len() {
                    return Click::Nothing;
                }
                let l = &cols[col][row];
                assert(all[col as int][row as int] == l.deep_view());
                if l.is_separator || !l.enabled {
                    Click::Nothing
                } else if l.has_submenu {
                    Click::Open(col, row)
                } else {
                    Click::Tell(self.key.clone(), l.id)
                }
            },
        }
    }
}

// --- what tray items say ------------------------------------------------------------------

/// Something that the tray says.
#[derive(Debug)]
pub enum TrayEvent {
    /// An item is new, or is as it was not before.
    Upsert(TrayItem),
    /// An item is gone.
    Remove(String),
    /// The menu of an item.
    Menu { key: String, x: i32, y: i32, items: Vec<MenuNode> },
}

/// The items without those of a key.
pub open spec fn items_without(items: Seq<TrayEntry>, key: Text) -> Seq<TrayEntry>
    decreases items.len(),
{
    if items.len() == 0 {
        items
    } else if items.last().key == key {
        items_without(items.drop_last(), key)
    } else {
        items_without(items.drop_last(), key).push(items.last())
    }
}

/// The items with one replaced, or added.
pub open spec fn items_with(items: Seq<TrayEntry>, e: TrayEntry) -> Seq<TrayEntry> {
    let p = item_place(items, e.key);
    if p < items.len() {
        items.update(p, e)
    } else {
        items.push(e)
    }
}

impl State {
    /// Does what the tray says.
    pub fn handle_tray_event(&mut self, ev: TrayEvent)
        requires
            old(self)@.wf(),
        ensures
            final(self)@ == (match ev {
                TrayEvent::Upsert(item) => (World {
                    tray_items: items_with(old(self)@.tray_items, item.deep_view()),
                    ..old(self)@
                }).manage(),
                TrayEvent::Remove(key) => (World {
                    tray_items: items_without(old(self)@.tray_items, key@),
                    ..old(self)@
                }).manage(),
                TrayEvent::Menu { key, x, y, items } => menu_opened(old(self)@, key@, items@, (x, y)),
            }),
            final(self)@.wf(),
    {
        match ev {
            TrayEvent::Upsert(item) => {
                let ghost all = self@.tray_items;
                let i: usize = find_item(&self.tray_items, item.key.as_str());
                if i < self.tray_items.len() {
                    self.tray_items.set(i, item);
                    assert(self.tray_items.deep_view() =~= all.update(i as int, item.deep_view()));
                } else {
                    self.tray_items.push(item);
                    assert(self.tray_items.deep_view() =~= all.push(item.deep_view()));
                }
                self.request_manage();
            },
            TrayEvent::Remove(key) => {
                let mut all: Vec<TrayItem> = Vec::new();
                core::mem::swap(&mut all, &mut self.tray_items);
                self.tray_items = drop_items(all, key.as_str());
                self.request_manage();
            },
            TrayEvent::Menu { key, x, y, items } => {
                self.open_tray_menu(key, items, (x, y));
            },
        }
    }
}

/// Drops the items of a key.
fn drop_items(items: Vec<TrayItem>, key: &str) -> (r: Vec<TrayItem>)
    ensures
        r.deep_view() == items_without(items.deep_view(), key@),
{
    let ghost all = items.deep_view();
    let mut items = items;
    let mut back: Vec<TrayItem> = Vec::new();
    assert(all.take(all.len() as int) =~= all);
    while items.len() > 0
        invariant
            items@.len() <= all.len(),
            items.deep_view() == all.take(items@.len() as int),
            items_without(all, key@) == items_without(
                all.take(items@.len() as int),
                key@,
            ) + back.deep_view().reverse(),
        decreases items@.len(),
    {
        let ghost n = items@.len() as int;
        let ghost b0 = back.deep_view();
        assert(all.take(n).drop_last() =~= all.take(n - 1));
        assert(items.deep_view()[n - 1] == items@[n - 1].deep_view());
        if let Some(it) = items.pop() {
            assert(items.deep_view() =~= all.take(n - 1));
            assert(all.take(n).last() == it.deep_view());
            if !same(it.key.as_str(), key) {
                back.push(it);
                assert(back.deep_view() =~= b0.push(it.deep_view()));
                assert(items_without(all.take(n - 1), key@).push(it.deep_view()) + b0.reverse()
                    =~= items_without(all.take(n - 1), key@) + back.deep_view().reverse());
            }
        }
    }
    let ghost b = back.deep_view();
    let mut r: Vec<TrayItem> = Vec::new();
    assert(all.take(0) =~= Seq::<TrayEntry>::empty());
    assert(items_without(all, key@) =~= b.reverse());
    while back.len() > 0
        invariant
            back@.len() <= b.len(),
            back.deep_view() == b.take(back@.len() as int),
            r.deep_view() == b.reverse().take(b.len() - back@.len()),
        decreases back@.len(),
    {
        let ghost n = back@.len() as int;
        let ghost r0 = r.deep_view();
        assert(back.deep_view()[n - 1] == back@[n - 1].deep_view());
        if let Some(it) = back.pop() {
            assert(back.deep_view() =~= b.take(n - 1));
            r.push(it);
            assert(r.deep_view() =~= r0.push(it.deep_view()));
            assert(b.reverse().take(b.len() - (n - 1)) =~= r0.push(b[n - 1]));
        }
    }
    assert(b.reverse().take(b.len() as int) =~= b.reverse());
    r
}

// --- where the pointer is -----------------------------------------------------------------

/// What a surface of the window manager is.
#[derive(Clone, Copy, Debug, PartialEq, Eq, Structural)]
pub enum Surface {
    Menu,
    Bar,
    Other,
}

/// The pointer moved over the menu or the bar.
pub open spec fn surface_moved(w: World, x: i32, y: i32) -> World {
    if w.pointer_over_menu {
        menu_moved(w, x, y)
    } else if w.pointer_over_bar {
        World { bar_pointer: (x, y), ..w }
    } else {
        w
    }
}

/// A button pressed over the menu or the bar.
pub open spec fn surface_pressed(w: World, button: u32) -> World {
    let v = World { last_pointer_button: button, ..w };
    if v.pointer_over_menu {
        menu_clicked(v, v.menu_pointer.0, v.menu_pointer.1)
    } else if v.pointer_over_bar {
        bar_clicked(v, v.bar_pointer.0 as int, button)
    } else {
        v
    }
}

/// A click on a surface that the pointer was not known to be over: where it is, is
/// reckoned from its place on the monitors.
pub open spec fn surface_interacted(w: World, s: Surface) -> World {
    match s {
        Surface::Menu => match w.tray_menu {
            Some(m) => if w.pointer_over_menu {
                w
            } else {
                menu_clicked(
                    w,
                    clip(w.pointer_pos.0 - m.mon.x),
                    clip(w.pointer_pos.1 - m.mon.y),
                )
            },
            None => w,
        },
        Surface::Bar => match w.bar {
            Some(b) => if w.pointer_over_bar {
                w
            } else {
                bar_clicked(
                    w,
                    clip(w.pointer_pos.0 - b.origin.0) as int,
                    w.last_pointer_button,
                )
            },
            None => w,
        },
        Surface::Other => w,
    }
}

impl State {
    /// The pointer came over a surface.
    pub fn surface_enter(&mut self, s: Surface, x: i32, y: i32)
        requires
            old(self)@.wf(),
        ensures
            final(self)@ == surface_moved(
                (World {
                    pointer_over_menu: s == Surface::Menu,
                    pointer_over_bar: s == Surface::Bar,
                    ..old(self)@
                }),
                x,
                y,
            ),
            final(self)@.wf(),
    {
        self.pointer_over_menu = s == Surface::Menu;
        self.pointer_over_bar = s == Surface::Bar;
        self.surface_motion(x, y);
    }

    /// The pointer left a surface.
    pub fn surface_leave(&mut self, s: Surface)
        requires
            old(self)@.wf(),
        ensures
            final(self)@ == (World {
                pointer_over_menu: old(self)@.pointer_over_menu && s != Surface::Menu,
                pointer_over_bar: old(self)@.pointer_over_bar && s != Surface::Bar,
                ..old(self)@
            }),
            final(self)@.wf(),
    {
        if s == Surface::Menu {
            self.pointer_over_menu = false;
        }
        if s == Surface::Bar {
            self.pointer_over_bar = false;
        }
    }

    /// The pointer moved over a surface.
    pub fn surface_motion(&mut self, x: i32, y: i32)
        requires
            old(self)@.wf(),
        ensures
            final(self)@ == surface_moved(old(self)@, x, y),
            final(self)@.wf(),
    {
        if self.pointer_over_menu {
            self.menu_pointer_moved(x, y);
        } else if self.pointer_over_bar {
            self.bar_pointer = (x, y);
        }
    }

    /// A button was pressed over a surface.
    pub fn surface_button(&mut self, button: u32)
        requires
            old(self)@.wf(),
        ensures
            final(self)@ == surface_pressed(old(self)@, button),
            final(self)@.wf(),
    {
        self.last_pointer_button = button;
        if self.pointer_over_menu {
            let (x, y) = self.menu_pointer;
            self.menu_click(x, y);
        } else if self.pointer_over_bar {
            let x: i32 = self.bar_pointer.0;
            self.bar_click(x, button);
        }
    }

    /// The wheel was turned over a surface.
    pub fn surface_axis(&mut self, horizontal: bool, turn: i32)
        requires
            old(self)@.wf(),
        ensures
            final(self)@ == (if old(self)@.pointer_over_bar {
                bar_scrolled(old(self)@, horizontal, turn as int)
            } else {
                old(self)@
            }),
            final(self)@.wf(),
    {
        if self.pointer_over_bar {
            self.bar_scroll(horizontal, turn);
        }
    }

    /// A surface was clicked.
    pub fn surface_interaction(&mut self, s: Surface)
        requires
            old(self)@.wf(),
        ensures
            final(self)@ == surface_interacted(old(self)@, s),
            final(self)@.wf(),
    {
        match s {
            Surface::Menu => {
                let mon = match &self.tray_menu {
                    None => {
                        return;
                    },
                    Some(m) => m.mon,
                };
                if !self.pointer_over_menu {
                    let x: i32 = clip_to(self.pointer_pos.0 as i128 - mon.x as i128);
                    let y: i32 = clip_to(self.pointer_pos.1 as i128 - mon.y as i128);
                    self.menu_click(x, y);
                }
            },
            Surface::Bar => {
                let origin: i32 = match &self.bar {
                    None => {
                        return;
                    },
                    Some(b) => b.origin.0,
                };
                if !self.pointer_over_bar {
                    let x: i32 = clip_to(self.pointer_pos.0 as i128 - origin as i128);
                    let button: u32 = self.last_pointer_button;
                    self.bar_click(x, button);
                }
            },
            Surface::Other => {},
        }
    }
}

} // verus!
