//! How menus, notifications and the bar look, and where what happens on them goes.

use vstd::prelude::*;
use crate::outputs::in_rect;
use crate::launcher_paint::{front_screen, last_seen, launcher_inks, match_inks, panel, query_inks, Panel};
use crate::bar_paint::{
    first_letter, icon_side, part_width, parts_width, spacer_count, spacer_width, with_reader, Measure, Strip,
};
use crate::bar::{BarModel, Goal, Part, Reader, Zone};
use crate::launcher::{is_alphanumeric, LauncherModel};
use crate::layout::{dock_screen, screen_place};
use crate::menu::{columns_of, lines_of, shown, Column, Line, MenuModel, MenuNode};
use crate::menu_paint::{arrow_inks, column_inks, is_marked, row_color, row_inks, toggle_inks};
use crate::monitor::{clip, Rect, Screen};
use crate::notice_paint::{notice_closed, notice_height, notice_inks, notice_place, notice_text_width, notice_top, notice_width};
use crate::paint::Ink;
use crate::rules::DockAnchor;
use crate::notices::Notice;
use crate::state::{Deed, World};
use crate::surfaces::{
    bar_clicked, menu_clicked, menu_closed, menu_moved, menu_opened, path_at, surface_interacted, surface_moved,
    surface_pressed, Surface,
};
use crate::text::Text;
use crate::theme::{LauncherTheme, NotifTheme};

verus! {

// --- menus ------------------------------------------------------------------------------

/// Of the entries of a menu those are shown that are visible, in their order.
pub proof fn law_shown_rows(before: Seq<MenuNode>, n: MenuNode, behind: Seq<MenuNode>)
    ensures
        shown(before + behind) == shown(before) + shown(behind),
        n.visible ==> shown(seq![n]) == seq![n],
        !n.visible ==> shown(seq![n]).len() == 0,
    decreases behind.len(),
{
    assert(seq![n].drop_last() =~= Seq::<MenuNode>::empty());
    assert(shown(seq![n].drop_last()) =~= Seq::<MenuNode>::empty());
    assert(n.visible ==> shown(seq![n]) =~= seq![n]);
    if behind.len() == 0 {
        assert(before + behind =~= before);
        assert(shown(before) + shown(behind) =~= shown(before));
    } else {
        law_shown_rows(before, n, behind.drop_last());
        assert((before + behind).drop_last() =~= before + behind.drop_last());
        assert((before + behind).last() == behind.last());
        assert(shown(before + behind) =~= shown(before) + shown(behind));
    }
}

/// A row says what its entry says.
pub proof fn law_row_says(nodes: Seq<MenuNode>, i: int)
    requires
        0 <= i < shown(nodes).len(),
    ensures
        ({
            let n = shown(nodes)[i];
            let l = lines_of(nodes)[i];
            &&& lines_of(nodes).len() == shown(nodes).len()
            &&& l.id == n.id && l.label == n.label@ && l.enabled == n.enabled
            &&& l.is_separator == n.is_separator && l.has_submenu == n.has_submenu
            &&& l.on <==> n.toggle_state == 1
            &&& l.toggle <==> n.toggle_type != 0
            &&& l.has_icon <==> n.icon is Some
        }),
{
}

/// A menu opens with its own rows; beside the rows whose menus are open stand the rows of
/// those.
pub proof fn law_columns(nodes: Seq<MenuNode>, path: Seq<usize>)
    ensures
        columns_of(nodes, Seq::empty()) == seq![lines_of(nodes)],
        columns_of(nodes, path).len() >= 1 && columns_of(nodes, path)[0] == lines_of(nodes),
        path.len() > 0 && path[0] < shown(nodes).len() && shown(nodes)[path[0] as int].has_submenu && shown(
            shown(nodes)[path[0] as int].children@,
        ).len() > 0 ==> columns_of(nodes, path).len() >= 2 && columns_of(nodes, path)[1] == lines_of(
            shown(nodes)[path[0] as int].children@,
        ),
        path.len() > 0 && path[0] < shown(nodes).len() && !shown(nodes)[path[0] as int].has_submenu ==> columns_of(
            nodes,
            path,
        ).len() == 1,
{
    if path.len() > 0 && path[0] < shown(nodes).len() {
        let n = shown(nodes)[path[0] as int];
        let rest = columns_of(n.children@, path.drop_first());
        reveal_with_fuel(columns_of, 2);
        assert(rest[0] == lines_of(n.children@));
    }
}

/// The pointer at a row closes the menus of the rows beside it and opens that of its own,
/// where it has one; to the left of it all stays open. Beside the menu nothing changes.
pub proof fn law_pointed_at(m: MenuModel, col: usize, row: usize)
    requires
        col <= m.open_path.len(),
    ensures
        ({
            let cols = columns_of(m.root, m.open_path);
            let path = path_at(m, Some((col, row)));
            let leads = col < cols.len() && row < cols[col as int].len() && cols[col as int][row as int].has_submenu
                && !cols[col as int][row as int].is_separator;
            &&& path.take(col as int) == m.open_path.take(col as int)
            &&& leads ==> path.len() == col + 1 && path[col as int] == row
            &&& !leads ==> path.len() == col
            &&& path_at(m, None) == m.open_path
        }),
{
    let base = m.open_path.take(col as int);
    if col == m.open_path.len() {
        assert(base =~= m.open_path);
    }
    assert(base.push(row).take(col as int) =~= base);
    assert(base.take(col as int) =~= base);
}

/// The menu follows the pointer, wherever it is over the menu.
pub proof fn law_menu_follows(w: World, x: i32, y: i32)
    requires
        w.tray_menu is Some,
    ensures
        ({
            let v = menu_moved(w, x, y);
            let m = w.tray_menu->0;
            let at = crate::menu::spot(m.columns, x as int, y as int);
            &&& v.menu_pointer == (x, y)
            &&& v.tray_menu is Some
            &&& v.tray_menu->0.hover == at
            &&& v.tray_menu->0.open_path == path_at(m, at)
            &&& v.tray_menu->0.root == m.root && v.tray_menu->0.columns == m.columns && v.tray_menu->0.key == m.key
        }),
{
}

/// A menu opens on the monitor that its item is on, with no other menu open and no row
/// marked; one with nothing to show does not open, and closes any that was.
pub proof fn law_menu_opens(w: World, key: Text, items: Seq<MenuNode>, anchor: (i32, i32))
    requires
        w.globals.compositor,
        w.globals.wm,
        w.desk.list.len() > 0,
    ensures
        ({
            let v = menu_opened(w, key, items, anchor);
            &&& shown(items).len() == 0 ==> v.tray_menu is None
            &&& shown(items).len() > 0 ==> {
                let m = v.tray_menu->0;
                &&& v.tray_menu is Some
                &&& m.key == key && m.root == items && m.anchor == anchor
                &&& m.mon == w.desk.list[dock_screen(w.desk.list, anchor.0 as int, anchor.1 as int)].rect
                &&& m.open_path.len() == 0 && m.hover is None
                &&& v.effects.contains(Deed::ShowMenu)
            }
        }),
{
    let u = menu_closed(w);
    let v = menu_opened(w, key, items, anchor);
    if shown(items).len() > 0 {
        assert(v.effects[u.effects.len() as int] == Deed::ShowMenu);
    }
}

/// A row is marked where it can be clicked and the pointer is at it or its menu is open; one
/// that cannot be clicked is faint, and of two that differ in this the look differs.
pub proof fn law_marked(m: MenuModel, ci: int, ri: int, l: Line)
    ensures
        !l.enabled ==> !is_marked(m, ci, ri, l),
        l.enabled && m.hover is Some && m.hover->Some_0.0 == ci && m.hover->Some_0.1 == ri ==> is_marked(m, ci, ri, l),
        l.enabled && 0 <= ci < m.open_path.len() && m.open_path[ci] == ri ==> is_marked(m, ci, ri, l),
        l.enabled && m.hover is None && m.open_path.len() == 0 && ci >= 0 ==> !is_marked(m, ci, ri, l),
        !l.enabled ==> row_color(m, ci, ri, l) == (0xf7u8, 0xf8u8, 0xf3u8, 0x66u8),
        is_marked(m, ci, ri, l) ==> row_color(m, ci, ri, l) == (0xffu8, 0xffu8, 0xffu8, 0xffu8),
        l.enabled && !is_marked(m, ci, ri, l) ==> row_color(m, ci, ri, l) == (0xf7u8, 0xf8u8, 0xf3u8, 0xffu8),
{
}

/// A line between rows is drawn in the middle of its room; every other row has its label in
/// its colour, behind the room for switches and icons.
pub proof fn law_row_drawn(m: MenuModel, c: Column, lines: Seq<Line>, ci: int, ri: int)
    requires
        0 <= ri < lines.len() == c.rows.len(),
        0 <= c.x <= 10000,
        20 <= c.w <= 460,
        0 <= c.rows[ri].y0 <= c.rows[ri].y1 <= 10000,
    ensures
        lines[ri].is_separator ==> row_inks(m, c, lines, ci, ri).len() == 1 && ({
            let k = row_inks(m, c, lines, ci, ri)[0];
            &&& k is Fill && k->Fill_h == 1
            &&& k->Fill_x - c.x == (c.x + c.w) - (k->Fill_x + k->Fill_w)
            &&& 0 <= (c.rows[ri].y1 - k->Fill_y) - (k->Fill_y - c.rows[ri].y0) <= 1
        }),
        !lines[ri].is_separator ==> exists|i: int|
            0 <= i < row_inks(m, c, lines, ci, ri).len() && ({
                let k = #[trigger] row_inks(m, c, lines, ci, ri)[i];
                &&& k is Text && k->Text_text == lines[ri].label && k->Text_color == row_color(m, ci, ri, lines[ri])
                &&& k->Text_x >= c.x + 28
                &&& lines[ri].has_icon ==> k->Text_x >= c.x + 28 + 18
            }),
        !lines[ri].is_separator && is_marked(m, ci, ri, lines[ri]) ==> row_inks(m, c, lines, ci, ri)[0] == (Ink::Fill {
            x: c.x,
            y: c.rows[ri].y0,
            w: c.w,
            h: 26,
            color: (0x4eu8, 0x9bu8, 0xcfu8, 0xffu8),
        }),
{
    let l = lines[ri];
    let row = c.rows[ri];
    let all = row_inks(m, c, lines, ci, ri);
    if !l.is_separator {
        let marked = is_marked(m, ci, ri, l);
        let color = row_color(m, ci, ri, l);
        let first = crate::menu_paint::mark_inks(c, row, marked);
        let front = first + crate::menu_paint::switch_inks(c, row, l, color) + crate::menu_paint::icon_inks(
            c,
            row,
            l,
            ci,
            ri,
        );
        let i = front.len() as int;
        assert(all[i] is Text);
        assert(all[i]->Text_text == l.label);
        if l.has_icon {
            assert(crate::menu_paint::any_icon(lines));
        }
        if marked {
            assert(all[0] == first[0]);
        }
    }
}

/// A switch is a box, and is filled where it is on; it stays within its room.
pub proof fn law_switch_drawn(x: int, y: int, on: bool, color: (u8, u8, u8, u8), i: int)
    requires
        0 <= x <= 10000,
        0 <= y <= 10000,
        0 <= i < toggle_inks(x, y, on, color).len(),
    ensures
        toggle_inks(x, y, true, color).len() == toggle_inks(x, y, false, color).len() + 1,
        ({
            let k = toggle_inks(x, y, on, color)[i];
            &&& k is Fill && k->Fill_color == color
            &&& x <= k->Fill_x && k->Fill_x + k->Fill_w <= x + 12
            &&& y <= k->Fill_y && k->Fill_y + k->Fill_h <= y + 12
        }),
{
}

/// The arrow of a row that leads on points to the right, and is the same above as below.
pub proof fn law_arrow_drawn(x: int, y: int, color: (u8, u8, u8, u8), i: int)
    requires
        0 <= x <= 10000,
        10 <= y <= 10000,
        0 <= i < 5,
    ensures
        arrow_inks(x, y, color).len() == 5,
        ({
            let k = arrow_inks(x, y, color)[i];
            &&& k is Fill && k->Fill_w == 1 && k->Fill_x == x + i && k->Fill_color == color
            &&& y - k->Fill_y == (k->Fill_y + k->Fill_h - 1) - y
            &&& i < 4 ==> arrow_inks(x, y, color)[i + 1]->Fill_h == k->Fill_h - 2
            &&& i == 4 ==> k->Fill_h == 1
        }),
{
}

/// A column is drawn over its whole area, with an edge of one pixel round it.
pub proof fn law_column_drawn(m: MenuModel, c: Column, lines: Seq<Line>, ci: int)
    requires
        0 <= c.x <= 10000,
        0 <= c.y <= 10000,
        0 <= c.w <= 10000,
        0 <= c.h <= 10000,
    ensures
        ({
            let edge = column_inks(m, c, lines, ci)[0];
            let back = column_inks(m, c, lines, ci)[1];
            &&& column_inks(m, c, lines, ci).len() >= 2
            &&& edge is Fill && back is Fill
            &&& back->Fill_x == c.x && back->Fill_y == c.y && back->Fill_w == c.w && back->Fill_h == c.h
            &&& edge->Fill_x == c.x - 1 && edge->Fill_y == c.y - 1
            &&& edge->Fill_x + edge->Fill_w == c.x + c.w + 1 && edge->Fill_y + edge->Fill_h == c.y + c.h + 1
        }),
{
}

// --- what happens on them ---------------------------------------------------------------

/// What the pointer does goes to the surface that it is over.
pub proof fn law_surface(w: World, x: i32, y: i32, button: u32)
    ensures
        w.pointer_over_menu ==> surface_moved(w, x, y) == menu_moved(w, x, y),
        !w.pointer_over_menu && w.pointer_over_bar ==> surface_moved(w, x, y) == (World { bar_pointer: (x, y), ..w }),
        !w.pointer_over_menu && !w.pointer_over_bar ==> surface_moved(w, x, y) == w,
        surface_pressed(w, button).last_pointer_button == button || w.pointer_over_menu || w.pointer_over_bar,
        !w.pointer_over_menu && w.pointer_over_bar ==> surface_pressed(w, button) == bar_clicked(
            World { last_pointer_button: button, ..w },
            w.bar_pointer.0 as int,
            button,
        ),
        w.pointer_over_menu ==> surface_pressed(w, button) == menu_clicked(
            World { last_pointer_button: button, ..w },
            w.menu_pointer.0,
            w.menu_pointer.1,
        ),
{
}

/// A click that is told of without the pointer is one at the place of the pointer on the
/// monitors, and is not told twice.
pub proof fn law_surface_told(w: World, m: MenuModel)
    requires
        w.tray_menu == Some(m),
        -10000 <= m.mon.x <= 10000,
        -10000 <= m.mon.y <= 10000,
        -10000 <= w.pointer_pos.0 <= 10000,
        -10000 <= w.pointer_pos.1 <= 10000,
    ensures
        w.pointer_over_menu ==> surface_interacted(w, Surface::Menu) == w,
        !w.pointer_over_menu ==> surface_interacted(w, Surface::Menu) == menu_clicked(
            w,
            (w.pointer_pos.0 - m.mon.x) as i32,
            (w.pointer_pos.1 - m.mon.y) as i32,
        ),
        surface_interacted(w, Surface::Other) == w,
        w.bar is None || w.pointer_over_bar ==> surface_interacted(w, Surface::Bar) == w,
{
}

// --- notifications ----------------------------------------------------------------------

/// A notification covers all of its area; the strip at its left edge says how urgent it is;
/// its text stands below its summary, and beside the strip.
pub proof fn law_notice_drawn(t: NotifTheme, n: Notice, body: i32)
    requires
        0 <= body <= 10000,
    ensures
        ({
            let k = notice_inks(t, n, body);
            let w = notice_width(t);
            let h = notice_height(n, body);
            &&& k.len() >= 3 && k[0] == (Ink::Fill { x: 0, y: 0, w, h, color: t.bg })
            &&& n.urgency == 2 ==> k[1] == (Ink::Fill { x: 0, y: 0, w: 4, h, color: t.accent_critical })
            &&& n.urgency != 2 ==> k[1] == (Ink::Fill { x: 0, y: 0, w: 4, h, color: t.accent })
            &&& k[2] is Text && k[2]->Text_text == n.summary && k[2]->Text_color == t.fg && k[2]->Text_x > 4
            &&& n.body.len() == 0 <==> k.len() == 3
            &&& n.body.len() > 0 ==> k[3] is Wrapped && k[3]->Wrapped_text == n.body && k[3]->Wrapped_color == t.body_fg
                && k[3]->Wrapped_y > k[2]->Text_y && k[3]->Wrapped_x == k[2]->Text_x && k[3]->Wrapped_y + body <= h
                && k[3]->Wrapped_x + k[3]->Wrapped_width <= w
        }),
{
}

/// A notification is as wide as is set, but never too narrow to be read.
pub proof fn law_notice_size(t: NotifTheme, n: Notice, body: i32)
    requires
        0 <= body <= 10000,
    ensures
        notice_width(t) >= t.width,
        notice_width(t) >= 120,
        t.width >= 120 ==> notice_width(t) == t.width,
        0 < notice_text_width(t) < notice_width(t),
        notice_height(n, body) >= 40,
        n.body.len() > 0 ==> notice_height(n, body) > body,
{
}

/// The first notification lies below the upper edge of its monitor, and below a bar there.
pub proof fn law_notice_below_bar(w: World, r: Rect)
    requires
        -10000 <= r.y <= 10000,
        w.bar is Some ==> 0 <= w.bar->0.height <= 10000 && 0 <= w.bar->0.margin_y <= 10000,
    ensures
        notice_top(w, r) > r.y,
        w.bar is Some && w.bar->0.anchor == DockAnchor::Top ==> notice_top(w, r) > r.y + w.bar->0.margin_y
            + w.bar->0.height,
        w.bar is None || w.bar->0.anchor == DockAnchor::Bottom ==> notice_top(w, r) == r.y + 12,
{
}

proof fn lemma_notice_place(ns: Seq<Notice>, id: u32)
    ensures
        0 <= notice_place(ns, id) <= ns.len(),
        notice_place(ns, id) < ns.len() ==> ns[notice_place(ns, id)].id == id,
        forall|i: int| 0 <= i < notice_place(ns, id) ==> (#[trigger] ns[i]).id != id,
    decreases ns.len(),
{
    if ns.len() > 0 && ns[0].id != id {
        lemma_notice_place(ns.drop_first(), id);
        assert forall|i: int| 0 <= i < notice_place(ns, id) implies (#[trigger] ns[i]).id != id by {
            if i > 0 {
                assert(ns.drop_first()[i - 1] == ns[i]);
            }
        }
    }
}

/// A notification that is closed is gone and its surface with it; the others stay, in their
/// order. One that is not there changes nothing.
pub proof fn law_notice_closed(w: World, p: int, id: u32)
    requires
        0 <= p < w.notifications.len(),
        w.notifications[p].id == id,
        forall|i: int| 0 <= i < w.notifications.len() && i != p ==> (#[trigger] w.notifications[i]).id != id,
    ensures
        notice_closed(w, id).notifications == w.notifications.remove(p),
        notice_closed(w, id).effects.contains(Deed::HideNotice(id)),
        notice_closed(World { notifications: w.notifications.take(p), ..w }, id) == (World {
            notifications: w.notifications.take(p),
            ..w
        }),
{
    lemma_notice_place(w.notifications, id);
    let q = notice_place(w.notifications, id);
    if q < w.notifications.len() {
        assert(w.notifications[q].id == id);
    }
    if p < q {
        assert(w.notifications[p].id != id);
    }
    assert(q == p);
    assert(notice_closed(w, id).effects[w.effects.len() as int] == Deed::HideNotice(id));
    let few = w.notifications.take(p);
    lemma_notice_place(few, id);
    let r = notice_place(few, id);
    if r < few.len() {
        assert(few[r] == w.notifications[r]);
    }
}

// --- the bar ----------------------------------------------------------------------------

/// What the parts of a bar leave free is shared out among its spacers, to the last pixels
/// that cannot be shared.
pub proof fn law_spacers_fill(parts: Seq<Part>, ms: Seq<Measure>, items: int, w: int, h: int)
    requires
        spacer_count(parts) > 0,
        0 <= parts_width(parts, ms, items, h) <= w <= 100000,
    ensures
        ({
            let n = spacer_count(parts) as int;
            let used = parts_width(parts, ms, items, h) + n * spacer_width(parts, ms, items, w, h);
            w - n < used <= w
        }),
{
    let n = spacer_count(parts) as int;
    let free = w - parts_width(parts, ms, items, h);
    assert(0 <= free / n <= free && n * (free / n) <= free && free - n < n * (free / n)) by (nonlinear_arith)
        requires
            n > 0,
            free >= 0,
    ;
}

/// A part is as wide as what it shows: a text with its margins on either side, an icon for
/// each item of the tray with the room beside it.
pub proof fn law_part_width(p: Part, m: Measure, items: int, h: int)
    requires
        items >= 0,
    ensures
        p is Reader ==> part_width(p, m, items, h) == p->Reader_0.pad + m.width + p->Reader_0.pad,
        p is Spacer ==> part_width(p, m, items, h) == 0,
        p is Tray ==> part_width(p, m, items + 1, h) - part_width(p, m, items, h) == icon_side(p->Tray_size, h)
            + p->Tray_spacing,
        p is Tray ==> part_width(p, m, 0, h) == 0,
        p is Tray && p->Tray_size > 0 ==> icon_side(p->Tray_size, h) == p->Tray_size,
        p is Tray && p->Tray_size <= 0 && h >= 16 ==> icon_side(p->Tray_size, h) == h - 8,
{
    if let Part::Tray { size, spacing } = p {
        let side = icon_side(size, h) + spacing;
        assert((items + 1) * side == items * side + side) by (nonlinear_arith);
    }
}

/// An item without an icon is shown by the first letter or number of its title.
pub proof fn law_first_letter(before: Text, c: char, behind: Text)
    requires
        is_alphanumeric(c),
        forall|i: int| 0 <= i < before.len() ==> !is_alphanumeric(#[trigger] before[i]),
    ensures
        first_letter(before.push(c) + behind) == c,
        first_letter(before) == '?',
    decreases before.len(),
{
    let t = before.push(c) + behind;
    if before.len() == 0 {
        assert(t[0] == c);
    } else {
        assert(t[0] == before[0]);
        let rest = before.drop_first();
        assert forall|i: int| 0 <= i < rest.len() implies !is_alphanumeric(#[trigger] rest[i]) by {
            assert(rest[i] == before[i + 1]);
        }
        law_first_letter(rest, c, behind);
        assert(t.drop_first() =~= rest.push(c) + behind);
    }
}

// --- the launcher -----------------------------------------------------------------------

/// The rows of the launcher follow each other from the top of its list, the first that is
/// seen first; the marked one has colours of its own.
pub proof fn law_match_drawn(l: LauncherModel, t: LauncherTheme, p: Panel, k: int)
    requires
        0 <= p.x <= 10000,
        0 <= p.list <= 10000,
        l.scroll <= k < l.scroll + 100,
        k < l.matches.len(),
    ensures
        ({
            let inks = match_inks(l, t, p, k);
            let back = inks[0];
            let line = inks[1];
            &&& inks.len() == 2 && back is Fill && line is Text
            &&& back->Fill_x == p.x && back->Fill_w == p.w
            &&& k == l.scroll ==> back->Fill_y == p.list
            &&& match_inks(l, t, p, k + 1)[0]->Fill_y == back->Fill_y + back->Fill_h
            &&& back->Fill_y < line->Text_y < back->Fill_y + back->Fill_h && line->Text_x > p.x
            &&& k == l.selected ==> back->Fill_color == t.sel_bg && line->Text_color == t.sel_fg
            &&& k != l.selected ==> back->Fill_color == t.bg && line->Text_color == t.fg
            &&& l.matches[k] < l.entries.len() ==> line->Text_text == l.entries[l.matches[k] as int]
        }),
{
}

/// What was typed is shown with a mark behind it; where nothing was, a faint hint is.
pub proof fn law_query_drawn(l: LauncherModel, t: LauncherTheme, p: Panel, width: i32)
    requires
        0 <= p.x <= 10000,
        0 <= p.y <= 10000,
        0 <= width <= 10000,
    ensures
        ({
            let inks = query_inks(l, t, p, width);
            &&& inks.len() >= 1 && inks[0] is Text
            &&& l.query.len() > 0 ==> inks.len() == 2 && inks[0]->Text_text == l.query && inks[0]->Text_color == t.fg
                && inks[1] is Fill && inks[1]->Fill_x >= inks[0]->Text_x + width
            &&& l.query.len() == 0 ==> inks.len() == 1 && inks[0]->Text_text == "Type to search…"@
        }),
{
}

/// The launcher darkens all of its monitor, and shows as many matches as there is room for.
pub proof fn law_launcher_drawn(l: LauncherModel, t: LauncherTheme, w: i32, h: i32, width: i32)
    ensures
        ({
            let inks = launcher_inks(l, t, w, h, width);
            let p = panel(w, h, t.width);
            &&& inks.len() >= 2 && inks[0] == (Ink::Fill { x: 0, y: 0, w, h, color: t.dim })
            &&& inks[1] is Fill && inks[1]->Fill_x == p.x && inks[1]->Fill_y == p.y && inks[1]->Fill_w == p.w
            &&& last_seen(l, p) <= l.matches.len()
            &&& last_seen(l, p) <= l.scroll + p.rows
            &&& last_seen(l, p) == l.matches.len() || last_seen(l, p) == l.scroll + p.rows
        }),
{
}

/// The launcher comes up on the focused monitor.
pub proof fn law_launcher_in_front(w: World)
    requires
        w.desk.list.len() > 0,
    ensures
        0 <= w.desk.focus < w.desk.list.len() ==> front_screen(w) == Some(w.desk.list[w.desk.focus].rect),
        w.desk.focus >= w.desk.list.len() ==> front_screen(w) == Some(w.desk.list[0].rect),
{
}

/// A module takes clicks, over all of its width, where it has a command for either button;
/// the next one begins where it ends.
pub proof fn law_clickable(s: Strip, b: BarModel, e: Reader, m: Measure, h: int)
    ensures
        ({
            let v = with_reader(s, b, e, m, h);
            &&& e.lclick is Some || e.rclick is Some ==> v.zones == s.zones.push(
                Zone { x0: s.at, x1: v.at, goal: Goal::Exec(e.id) },
            )
            &&& e.lclick is None && e.rclick is None ==> v.zones == s.zones
            &&& v.at == clip(s.at + e.pad + m.width + e.pad)
            &&& v.inks.last() is Text && v.inks.last()->Text_text == e.text
            &&& e.fg is Some ==> v.inks.last()->Text_color == e.fg->0
            &&& e.fg is None ==> v.inks.last()->Text_color == b.fg
            &&& e.bg is Some ==> v.inks.len() == s.inks.len() + 2
            &&& e.bg is None ==> v.inks.len() == s.inks.len() + 1
        }),
{
}

proof fn lemma_screen_place(list: Seq<Screen>, x: int, y: int)
    ensures
        0 <= screen_place(list, x, y) <= list.len(),
        screen_place(list, x, y) < list.len() ==> in_rect(list[screen_place(list, x, y)].rect, x, y),
        forall|i: int| 0 <= i < screen_place(list, x, y) ==> !in_rect((#[trigger] list[i]).rect, x, y),
    decreases list.len(),
{
    if list.len() > 0 && !in_rect(list[0].rect, x, y) {
        lemma_screen_place(list.drop_first(), x, y);
        let p = screen_place(list, x, y);
        assert forall|i: int| 0 <= i < p implies !in_rect((#[trigger] list[i]).rect, x, y) by {
            if i > 0 {
                assert(list.drop_first()[i - 1] == list[i]);
            }
        }
        if p < list.len() {
            assert(list.drop_first()[p - 1] == list[p]);
        }
    }
}

/// A point is on the first monitor that holds it, its left and upper edges in and its right
/// and lower ones out; where none does, the first monitor of all stands in.
pub proof fn law_monitor_at(list: Seq<Screen>, x: int, y: int, k: int)
    requires
        0 <= k < list.len(),
    ensures
        ({
            let r = list[k].rect;
            let here = r.x <= x < r.x + r.w && r.y <= y < r.y + r.h;
            let first = forall|i: int|
                0 <= i < k ==> !((#[trigger] list[i]).rect.x <= x < list[i].rect.x + list[i].rect.w && list[i].rect.y <= y
                    < list[i].rect.y + list[i].rect.h);
            let nowhere = forall|i: int|
                0 <= i < list.len() ==> !((#[trigger] list[i]).rect.x <= x < list[i].rect.x + list[i].rect.w
                    && list[i].rect.y <= y < list[i].rect.y + list[i].rect.h);
            &&& here && first ==> dock_screen(list, x, y) == k
            &&& nowhere ==> dock_screen(list, x, y) == 0
        }),
{
    lemma_screen_place(list, x, y);
    let p = screen_place(list, x, y);
    if p < list.len() {
        assert(in_rect(list[p].rect, x, y));
    }
}

} // verus!
