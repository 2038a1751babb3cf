//! Where the bar, its modules, menus, notifications and the launcher are, what a click on
//! them leads to, and what the launcher finds.

use vstd::prelude::*;
use crate::bar::{BarModel, Goal, Part, Zone};
use crate::bar_paint::{
    bar_rect, bar_strip, icon_side, part_width, parts_width, spacer_count, spacer_width, with_items, with_parts,
    Measure, Strip,
};
use crate::launcher::{fuzzy, keyed, lowercase, matches_of, search};
use crate::launcher::{visible_text, LauncherModel, Stroke};
use crate::launcher_paint::panel;
use crate::launching::{launcher_keyed, Upshot};
use crate::menu::{column_place, in_column, row_place, spot, Column, Line, MenuRow};
use crate::menu_paint::{beside, kept_in, rows_from};
use crate::monitor::{clip, Rect};
use crate::notice_paint::{notice_place, notice_shown, notice_spots, notices_held, stay_ms};
use crate::notices::Notice;
use crate::rules::DockAnchor;
use crate::state::World;
use crate::surfaces::{click_command, item_errand, zone_place};
use crate::text::Text;
use crate::tray::{Errand, TrayEntry};

verus! {

// --- the bar ----------------------------------------------------------------------------

/// A bar lies along the edge that it is anchored to, so far from it as its margin says, and
/// as far from both sides.
pub proof fn law_bar_place(b: BarModel, r: Rect)
    requires
        1 <= b.height,
        0 <= b.margin_x && 0 <= b.margin_y,
        2 * b.margin_x < r.w,
        b.height + b.margin_y <= r.h,
        r.x + r.w <= i32::MAX,
        r.y + r.h <= i32::MAX,
    ensures
        ({
            let at = bar_rect(b, r);
            &&& at.h == b.height
            &&& at.x - r.x == b.margin_x
            &&& (r.x + r.w) - (at.x + at.w) == b.margin_x
            &&& b.anchor == DockAnchor::Top ==> at.y - r.y == b.margin_y
            &&& b.anchor == DockAnchor::Bottom ==> (r.y + r.h) - (at.y + at.h) == b.margin_y
        }),
{
}

/// Whether parts of a bar have no negative width.
pub open spec fn sane_parts(parts: Seq<Part>, ms: Seq<Measure>, items: int, h: int) -> bool {
    &&& ms.len() >= parts.len()
    &&& forall|i: int|
        0 <= i < parts.len() ==> 0 <= #[trigger] part_width(parts[i], ms[i], items, h)
    &&& forall|i: int|
        0 <= i < parts.len() ==> ((#[trigger] parts[i]) matches Part::Tray { size, spacing } ==> 0 <= spacing)
}

/// The width of parts, however great.
pub open spec fn full_width(parts: Seq<Part>, ms: Seq<Measure>, items: int, h: int) -> int
    decreases parts.len(),
{
    if parts.len() == 0 {
        0
    } else {
        full_width(parts.drop_last(), ms, items, h) + part_width(parts.last(), ms[parts.len() - 1], items, h)
    }
}

proof fn lemma_full_width(parts: Seq<Part>, ms: Seq<Measure>, items: int, h: int)
    requires
        sane_parts(parts, ms, items, h),
        full_width(parts, ms, items, h) <= i32::MAX,
    ensures
        0 <= full_width(parts, ms, items, h),
        parts_width(parts, ms, items, h) == full_width(parts, ms, items, h),
    decreases parts.len(),
{
    if parts.len() > 0 {
        let front = parts.drop_last();
        lemma_sane_front(parts, ms, items, h);
        assert(part_width(parts[parts.len() - 1], ms[parts.len() - 1], items, h) >= 0);
        lemma_full_width(front, ms, items, h);
    }
}

proof fn lemma_sane_front(parts: Seq<Part>, ms: Seq<Measure>, items: int, h: int)
    requires
        sane_parts(parts, ms, items, h),
        parts.len() > 0,
    ensures
        sane_parts(parts.drop_last(), ms, items, h),
{
    let front = parts.drop_last();
    assert forall|i: int| 0 <= i < front.len() implies 0 <= #[trigger] part_width(front[i], ms[i], items, h) by {
        assert(front[i] == parts[i]);
        assert(0 <= part_width(parts[i], ms[i], items, h));
    }
    assert forall|i: int| 0 <= i < front.len() implies ((#[trigger] front[i]) matches Part::Tray { size, spacing }
        ==> 0 <= spacing) by {
        assert(front[i] == parts[i]);
    }
}

/// Whether zones lie one after the other, the last of them up to an end.
pub open spec fn in_a_row(zones: Seq<Zone>, start: int, end: int) -> bool {
    &&& forall|i: int| 0 <= i < zones.len() ==> start <= (#[trigger] zones[i]).x0 <= zones[i].x1 <= end
    &&& forall|i: int, j: int| 0 <= i < j < zones.len() ==> (#[trigger] zones[i]).x1 <= (#[trigger] zones[j]).x0
}

proof fn lemma_row_grows(zones: Seq<Zone>, z: Zone, start: int, end: int)
    requires
        in_a_row(zones, start, z.x0 as int),
        start <= z.x0 <= z.x1 <= end,
    ensures
        in_a_row(zones.push(z), start, end),
{
}

proof fn lemma_items_row(
    s: Strip,
    items: Seq<TrayEntry>,
    letters: Seq<Measure>,
    side: int,
    spacing: int,
    h: int,
    start: int,
)
    requires
        in_a_row(s.zones, start, s.at as int),
        start <= s.at,
        0 <= side,
        0 <= spacing,
        s.at + items.len() * (side + spacing) <= i32::MAX,
    ensures
        ({
            let v = with_items(s, items, letters, side, spacing, h);
            &&& in_a_row(v.zones, start, v.at as int)
            &&& v.at == s.at + items.len() * (side + spacing)
        }),
    decreases items.len(),
{
    if items.len() > 0 {
        let n = items.len() as int;
        let c = side + spacing;
        assert(n * c == (n - 1) * c + c) by (nonlinear_arith);
        assert(0 <= (n - 1) * c) by (nonlinear_arith)
            requires
                n >= 1,
                c >= 0,
        ;
        lemma_items_row(s, items.drop_last(), letters, side, spacing, h, start);
        let v = with_items(s, items.drop_last(), letters, side, spacing, h);
        lemma_row_grows(
            v.zones,
            Zone { x0: v.at, x1: clip(v.at + side + spacing), goal: Goal::Tray(items.last().key) },
            start,
            v.at + c,
        );
    } else {
        assert(items.len() * (side + spacing) == 0) by (nonlinear_arith)
            requires
                items.len() == 0,
        ;
    }
}

proof fn lemma_parts_row(
    s: Strip,
    b: BarModel,
    parts: Seq<Part>,
    ms: Seq<Measure>,
    items: Seq<TrayEntry>,
    letters: Seq<Seq<Measure>>,
    spacer: int,
    h: int,
)
    requires
        sane_parts(parts, ms, items.len() as int, h),
        0 <= spacer,
        s.at == 0 && s.zones.len() == 0,
        full_width(parts, ms, items.len() as int, h) + spacer_count(parts) * spacer <= i32::MAX,
    ensures
        ({
            let v = with_parts(s, b, parts, ms, items, letters, spacer, h);
            &&& in_a_row(v.zones, 0, v.at as int)
            &&& v.at == full_width(parts, ms, items.len() as int, h) + spacer_count(parts) * spacer
            &&& 0 <= v.at
        }),
    decreases parts.len(),
{
    let n = items.len() as int;
    if parts.len() > 0 {
        let front = parts.drop_last();
        lemma_sane_front(parts, ms, n, h);
        let k = parts.len() - 1;
        assert(part_width(parts[k], ms[k], n, h) >= 0);
        let c = spacer_count(front) as int;
        assert(spacer_count(parts) * spacer == c * spacer + (if parts.last() is Spacer {
            spacer
        } else {
            0
        })) by (nonlinear_arith)
            requires
                spacer_count(parts) == c + (if parts.last() is Spacer {
                    1int
                } else {
                    0
                }),
        ;
        lemma_parts_row(s, b, front, ms, items, letters, spacer, h);
        let v = with_parts(s, b, front, ms, items, letters, spacer, h);
        assert(parts[k] == parts.last());
        match parts.last() {
            Part::Spacer => {},
            Part::Separator { .. } => {},
            Part::Reader(e) => {
                let wd = part_width(parts.last(), ms[k], n, h);
                if e.lclick is Some || e.rclick is Some {
                    lemma_row_grows(
                        v.zones,
                        Zone { x0: v.at, x1: clip(v.at + wd), goal: Goal::Exec(e.id) },
                        0,
                        v.at + wd,
                    );
                }
            },
            Part::Tray { size, spacing } => {
                lemma_items_row(v, items, letters[k], icon_side(size, h), spacing as int, h, 0);
            },
        }
    } else {
        assert(spacer_count(parts) * spacer == 0) by (nonlinear_arith)
            requires
                spacer_count(parts) == 0,
        ;
    }
}

/// The modules of a bar lie one after the other from the left, in their order, none over
/// another, so that a place belongs to at most one of them; where there are spacers, they
/// share what is left, and the last module ends at the right end of the bar, but for what
/// cannot be shared out.
pub proof fn law_modules_in_a_row(
    b: BarModel,
    r: Rect,
    ms: Seq<Measure>,
    items: Seq<TrayEntry>,
    letters: Seq<Seq<Measure>>,
)
    requires
        sane_parts(b.parts, ms, items.len() as int, bar_rect(b, r).h as int),
        full_width(b.parts, ms, items.len() as int, bar_rect(b, r).h as int) <= bar_rect(b, r).w,
    ensures
        ({
            let v = bar_strip(b, r, ms, items, letters);
            let w = bar_rect(b, r).w as int;
            let n = spacer_count(b.parts) as int;
            &&& in_a_row(v.zones, 0, w)
            &&& n > 0 ==> w - n < v.at <= w
            &&& n == 0 ==> v.at == full_width(b.parts, ms, items.len() as int, bar_rect(b, r).h as int)
        }),
{
    let w = bar_rect(b, r).w as int;
    let h = bar_rect(b, r).h as int;
    let k = items.len() as int;
    let n = spacer_count(b.parts) as int;
    lemma_full_width(b.parts, ms, k, h);
    let full = full_width(b.parts, ms, k, h);
    let left = w - full;
    let sp = spacer_width(b.parts, ms, k, w, h) as int;
    if n > 0 {
        assert(sp == left / n && 0 <= sp && n * sp <= left < n * sp + n) by (nonlinear_arith)
            requires
                n > 0,
                0 <= left <= i32::MAX,
                sp == clip(left / n),
        ;
    } else {
        assert(n * sp == 0) by (nonlinear_arith)
            requires
                n == 0,
        ;
    }
    assert(spacer_count(b.parts) * sp == n * sp);
    let ground = Strip {
        inks: seq![crate::paint::Ink::Fill { x: 0, y: 0, w: w as i32, h: h as i32, color: b.bg }],
        zones: Seq::empty(),
        at: 0,
    };
    lemma_parts_row(ground, b, b.parts, ms, items, letters, sp, h);
}

proof fn lemma_zone_place(zones: Seq<Zone>, x: int)
    ensures
        0 <= zone_place(zones, x) <= zones.len(),
        zone_place(zones, x) < zones.len() ==> zones[zone_place(zones, x)].x0 <= x < zones[zone_place(zones, x)].x1,
        forall|i: int| 0 <= i < zone_place(zones, x) ==> !((#[trigger] zones[i]).x0 <= x < zones[i].x1),
    decreases zones.len(),
{
    if zones.len() > 0 && !(zones[0].x0 <= x < zones[0].x1) {
        lemma_zone_place(zones.drop_first(), x);
        assert forall|i: int| 0 <= i < zone_place(zones, x) implies !((#[trigger] zones[i]).x0 <= x < zones[i].x1) by {
            if i > 0 {
                assert(zones.drop_first()[i - 1] == zones[i]);
            }
        }
    }
}

/// A click goes to the module that it is on: where modules lie in a row, to the one whose
/// ends it is between, and to none where it is between none.
pub proof fn law_click_hits(zones: Seq<Zone>, start: int, end: int, k: int, x: int)
    requires
        in_a_row(zones, start, end),
        0 <= k < zones.len(),
    ensures
        zones[k].x0 <= x < zones[k].x1 <==> zone_place(zones, x) == k,
        x < start || x >= end ==> zone_place(zones, x) == zones.len(),
{
    lemma_zone_place(zones, x);
    let p = zone_place(zones, x);
    if p < k {
        assert(zones[p].x1 <= zones[k].x0);
    }
}

/// A click with the right button on a module runs the command for that, and with any other
/// the other one.
pub proof fn law_click_runs(parts: Seq<Part>, k: int, button: u32)
    requires
        0 <= k < parts.len(),
        parts[k] is Reader,
        forall|i: int|
            0 <= i < parts.len() && i != k ==> !((#[trigger] parts[i]) is Reader && parts[i]->Reader_0.id
                == parts[k]->Reader_0.id),
    ensures
        click_command(parts, parts[k]->Reader_0.id, 0x111) == parts[k]->Reader_0.rclick,
        button != 0x111 ==> click_command(parts, parts[k]->Reader_0.id, button) == parts[k]->Reader_0.lclick,
    decreases parts.len(),
{
    let id = parts[k]->Reader_0.id;
    let rest = parts.drop_first();
    if k > 0 {
        assert(rest[k - 1] == parts[k]);
        assert forall|i: int| 0 <= i < rest.len() && i != k - 1 implies !((#[trigger] rest[i]) is Reader
            && rest[i]->Reader_0.id == rest[k - 1]->Reader_0.id) by {
            assert(rest[i] == parts[i + 1]);
        }
        law_click_runs(rest, k - 1, button);
        assert(!(parts[0] is Reader && parts[0]->Reader_0.id == id));
    } else {
        assert forall|i: int| 0 <= i < rest.len() implies !((#[trigger] rest[i]) is Reader && rest[i]->Reader_0.id
            == id) by {
            assert(rest[i] == parts[i + 1]);
        }
        lemma_no_reader(rest, id, button);
        lemma_no_reader(rest, id, 0x111);
    }
}

proof fn lemma_no_reader(parts: Seq<Part>, id: u64, button: u32)
    requires
        forall|i: int| 0 <= i < parts.len() ==> !((#[trigger] parts[i]) is Reader && parts[i]->Reader_0.id == id),
    ensures
        click_command(parts, id, button) is None,
    decreases parts.len(),
{
    if parts.len() > 0 {
        let rest = parts.drop_first();
        assert forall|i: int| 0 <= i < rest.len() implies !((#[trigger] rest[i]) is Reader && rest[i]->Reader_0.id
            == id) by {
            assert(rest[i] == parts[i + 1]);
        }
        lemma_no_reader(rest, id, button);
    }
}

/// The right button opens the menu of a tray item, the middle one does what comes second,
/// and the left one what comes first, unless the item has nothing but a menu.
pub proof fn law_item_told(key: Text, only: bool, x: i32, y: i32)
    ensures
        item_errand(key, 0x111, only, x, y) == (Errand::OpenMenu { key, x, y }),
        item_errand(key, 0x112, only, x, y) == (Errand::SecondaryActivate { key, x, y }),
        item_errand(key, 0x110, false, x, y) == (Errand::Activate { key, x, y }),
        item_errand(key, 0x110, true, x, y) == (Errand::OpenMenu { key, x, y }),
{
}

// --- menus ------------------------------------------------------------------------------

/// What is kept in lies inside where it fits, and is not moved where it lies inside.
pub proof fn law_kept_in(v: int, size: int, room: int)
    requires
        0 <= size <= room <= i32::MAX,
    ensures
        0 <= kept_in(v, size, room),
        kept_in(v, size, room) + size <= room,
        0 <= v && v + size <= room ==> kept_in(v, size, room) == v,
{
}

/// A menu of a row lies right of the menu that the row is in where there is room for it, and
/// left of it where there is only room there; it lies inside in any case.
pub proof fn law_menu_beside(parent: Column, width: int, room: int)
    requires
        0 <= width <= room <= i32::MAX,
        0 <= parent.x && 0 <= parent.w,
    ensures
        ({
            let x = beside(parent, width, room);
            &&& 0 <= x && x + width <= room
            &&& parent.x + parent.w + width <= room ==> x == parent.x + parent.w
            &&& parent.x + parent.w + width > room && parent.x >= width && parent.x <= room ==> x + width == parent.x
        }),
{
}

/// The rows of a menu lie one below the other without a gap, in the order of their lines,
/// from its upper end on.
pub proof fn law_rows_stacked(lines: Seq<Line>, y: i32)
    requires
        0 <= y,
        y + 26 * lines.len() <= i32::MAX,
    ensures
        ({
            let rows = rows_from(lines, y);
            &&& rows.len() == lines.len()
            &&& lines.len() > 0 ==> rows[0].y0 == y
            &&& forall|i: int| 0 <= i < rows.len() ==> y <= (#[trigger] rows[i]).y0 < rows[i].y1 <= y + 26 * lines.len()
            &&& forall|i: int, j: int|
                0 <= i < j < rows.len() ==> (#[trigger] rows[i]).y1 <= (#[trigger] rows[j]).y0
            &&& forall|i: int, j: int|
                0 <= i && j == i + 1 && j < rows.len() ==> (#[trigger] rows[i]).y1 == (#[trigger] rows[j]).y0
        }),
    decreases lines.len(),
{
    if lines.len() > 0 {
        law_rows_stacked(lines.drop_last(), y);
    }
}

proof fn lemma_row_place(rows: Seq<MenuRow>, y: int)
    ensures
        0 <= row_place(rows, y) <= rows.len(),
        row_place(rows, y) < rows.len() ==> rows[row_place(rows, y)].y0 <= y < rows[row_place(rows, y)].y1,
        forall|i: int| 0 <= i < row_place(rows, y) ==> !((#[trigger] rows[i]).y0 <= y < rows[i].y1),
    decreases rows.len(),
{
    if rows.len() > 0 && !(rows[0].y0 <= y < rows[0].y1) {
        lemma_row_place(rows.drop_first(), y);
        assert forall|i: int| 0 <= i < row_place(rows, y) implies !((#[trigger] rows[i]).y0 <= y < rows[i].y1) by {
            if i > 0 {
                assert(rows.drop_first()[i - 1] == rows[i]);
            }
        }
    }
}

proof fn lemma_column_place(cols: Seq<Column>, x: int, y: int)
    ensures
        0 <= column_place(cols, x, y) <= cols.len(),
        column_place(cols, x, y) < cols.len() ==> in_column(cols[column_place(cols, x, y)], x, y),
        forall|i: int| 0 <= i < column_place(cols, x, y) ==> !in_column(#[trigger] cols[i], x, y),
    decreases cols.len(),
{
    if cols.len() > 0 && !in_column(cols[0], x, y) {
        lemma_column_place(cols.drop_first(), x, y);
        assert forall|i: int| 0 <= i < column_place(cols, x, y) implies !in_column(#[trigger] cols[i], x, y) by {
            if i > 0 {
                assert(cols.drop_first()[i - 1] == cols[i]);
            }
        }
    }
}

/// The row at a point is one that the point is in, of a column that it is in; a point beside
/// all columns is at none.
pub proof fn law_spot(cols: Seq<Column>, x: int, y: int)
    requires
        cols.len() <= usize::MAX,
        forall|i: int| 0 <= i < cols.len() ==> (#[trigger] cols[i]).rows.len() <= usize::MAX,
    ensures
        spot(cols, x, y) matches Some((c, r)) ==> {
            &&& c < cols.len() && r < cols[c as int].rows.len()
            &&& cols[c as int].x <= x < cols[c as int].x + cols[c as int].w
            &&& cols[c as int].rows[r as int].y0 <= y < cols[c as int].rows[r as int].y1
        },
        (forall|i: int|
            0 <= i < cols.len() ==> !((#[trigger] cols[i]).x <= x < cols[i].x + cols[i].w && cols[i].y <= y
                < cols[i].y + cols[i].h)) ==> spot(cols, x, y) is None,
{
    lemma_column_place(cols, x, y);
    let c = column_place(cols, x, y);
    if c < cols.len() {
        lemma_row_place(cols[c].rows, y);
        assert(cols[c].rows.len() <= usize::MAX);
    }
}

// --- notifications ----------------------------------------------------------------------

/// Notifications lie one below the other, the oldest at the top, in one column, and none
/// over another.
pub proof fn law_notices_stacked(ns: Seq<Notice>, x: i32, top: i32)
    requires
        forall|i: int| 0 <= i < ns.len() ==> 0 <= (#[trigger] ns[i]).height,
        notice_spots(ns, x, top).1 < i32::MAX,
    ensures
        ({
            let s = notice_spots(ns, x, top).0;
            &&& s.len() == ns.len()
            &&& top <= notice_spots(ns, x, top).1
            &&& ns.len() > 0 ==> s[0].y == top
            &&& forall|i: int| 0 <= i < s.len() ==> (#[trigger] s[i]).id == ns[i].id && s[i].x == x && s[i].y
                + ns[i].height < notice_spots(ns, x, top).1
            &&& forall|i: int, j: int|
                0 <= i < j < s.len() ==> (#[trigger] s[i]).y + ns[i].height < (#[trigger] s[j]).y
        }),
    decreases ns.len(),
{
    if ns.len() > 0 {
        let front = ns.drop_last();
        assert forall|i: int| 0 <= i < front.len() implies 0 <= (#[trigger] front[i]).height by {
            assert(front[i] == ns[i]);
        }
        assert(0 <= ns[ns.len() - 1].height);
        law_notices_stacked(front, x, top);
        let s = notice_spots(ns, x, top).0;
        let before = notice_spots(front, x, top).0;
        assert forall|i: int| 0 <= i < before.len() implies #[trigger] s[i] == before[i] && front[i] == ns[i] by {}
    }
}

proof fn lemma_held(w: World)
    ensures
        ({
            let n = w.notifications.len();
            let v = notices_held(w).notifications;
            &&& n <= 5 ==> v == w.notifications
            &&& n > 5 ==> v == w.notifications.skip(n - 5)
        }),
    decreases w.notifications.len(),
{
    if w.notifications.len() > 5 {
        let n = w.notifications.len() as int;
        let u = (World { notifications: w.notifications.remove(0), ..w }).then_do(
            crate::state::Deed::HideNotice(w.notifications[0].id),
        );
        lemma_held(u);
        assert(u.notifications =~= w.notifications.skip(1));
        assert(u.notifications.skip(n - 1 - 5) =~= w.notifications.skip(n - 5)) by {
            if n - 1 >= 5 {
                assert(w.notifications.skip(1).skip(n - 6) =~= w.notifications.skip(n - 5));
            }
        }
        if n - 1 <= 5 {
            assert(u.notifications =~= w.notifications.skip(n - 5));
        }
    }
}

/// Where there are too many notifications, the oldest go and the newest stay, in their
/// order.
pub proof fn law_newest_stay(w: World, id: u32, summary: Text, body: Text, urgency: u8, expire: i32)
    requires
        w.globals.compositor,
        w.globals.wm,
        notice_place(w.notifications, id) == w.notifications.len(),
    ensures
        ({
            let n = Notice { id, summary, body, urgency, height: 0, drawn: false };
            let all = w.notifications + seq![n];
            let v = notice_shown(w, id, summary, body, urgency, expire).notifications;
            &&& all.len() <= 5 ==> v == all
            &&& all.len() > 5 ==> v == all.skip(all.len() - 5)
        }),
{
    let n = Notice { id, summary, body, urgency, height: 0, drawn: false };
    assert(w.notifications.push(n) =~= w.notifications + seq![n]);
    lemma_held((World { notifications: w.notifications.push(n), ..w }).then_do(crate::state::Deed::ShowNotice(id)));
}

/// A notification stays as long as it asks for, for good where it asks for zero, and as long
/// as is set where it does not ask.
pub proof fn law_notice_stays(asked: i32, usual: i32)
    ensures
        asked >= 0 ==> stay_ms(asked, usual) == asked,
        asked < 0 && usual >= 0 ==> stay_ms(asked, usual) == usual,
        asked < 0 && usual < 0 ==> stay_ms(asked, usual) == 0,
{
}

// --- the launcher -----------------------------------------------------------------------

/// Whether the characters of `q` stand in `t` in their order, at the places `at`.
pub open spec fn stand_at(q: Text, t: Text, at: Seq<int>) -> bool {
    &&& at.len() == q.len()
    &&& forall|i: int| 0 <= i < q.len() ==> 0 <= (#[trigger] at[i]) < t.len() && t[at[i]] == q[i]
    &&& forall|i: int, j: int| 0 <= i < j < q.len() ==> (#[trigger] at[i]) < (#[trigger] at[j])
}

/// Whether the characters of a text stand in another one in their order.
pub open spec fn spelled_in(q: Text, t: Text) -> bool {
    exists|at: Seq<int>| #[trigger] stand_at(q, t, at)
}

proof fn lemma_found(q: Text, t: Text, starts: Seq<bool>, n: nat) -> (at: Seq<int>)
    requires
        n <= t.len(),
    ensures
        ({
            let s = search(q, t, starts, n);
            &&& 0 <= s.found <= q.len()
            &&& at.len() == s.found
            &&& forall|i: int| 0 <= i < s.found ==> 0 <= (#[trigger] at[i]) < n && t[at[i]] == q[i]
            &&& forall|i: int, j: int| 0 <= i < j < s.found ==> (#[trigger] at[i]) < (#[trigger] at[j])
        }),
    decreases n,
{
    if n == 0 {
        Seq::empty()
    } else {
        let before = lemma_found(q, t, starts, (n - 1) as nat);
        let s = search(q, t, starts, (n - 1) as nat);
        if s.found < q.len() && t[n - 1] == q[s.found] {
            before.push(n - 1)
        } else {
            before
        }
    }
}

proof fn lemma_greedy(q: Text, t: Text, starts: Seq<bool>, n: nat, k: int, at: Seq<int>)
    requires
        n <= t.len(),
        0 <= k <= q.len(),
        at.len() == k,
        forall|i: int| 0 <= i < k ==> 0 <= (#[trigger] at[i]) < n && t[at[i]] == q[i],
        forall|i: int, j: int| 0 <= i < j < k ==> (#[trigger] at[i]) < (#[trigger] at[j]),
    ensures
        search(q, t, starts, n).found >= k,
    decreases n,
{
    let _ = lemma_found(q, t, starts, n);
    if k > 0 {
        assert(0 <= at[k - 1] < n);
        let _ = lemma_found(q, t, starts, (n - 1) as nat);
        if at[k - 1] < n - 1 {
            assert forall|i: int| 0 <= i < k implies 0 <= (#[trigger] at[i]) < n - 1 by {
                if i < k - 1 {
                    assert(at[i] < at[k - 1]);
                }
            }
            lemma_greedy(q, t, starts, (n - 1) as nat, k, at);
        } else {
            let less = at.drop_last();
            assert forall|i: int| 0 <= i < k - 1 implies 0 <= (#[trigger] less[i]) < n - 1 && t[less[i]] == q[i] by {
                assert(less[i] == at[i]);
                assert(at[i] < at[k - 1]);
            }
            lemma_greedy(q, t, starts, (n - 1) as nat, k - 1, less);
        }
    }
}

/// The launcher finds exactly the texts in which the characters of the query stand in their
/// order, however upper and lower case are mixed.
pub proof fn law_found_as_spelled(query: Text, text: Text)
    ensures
        query.len() > 0 ==> (fuzzy(query, text) is Some <==> spelled_in(lowercase(query), lowercase(text))),
        query.len() == 0 ==> fuzzy(query, text) is Some,
{
    let q = lowercase(query);
    let t = lowercase(text);
    let starts = crate::launcher::word_starts(t);
    let at = lemma_found(q, t, starts, t.len());
    if search(q, t, starts, t.len()).found == q.len() {
        assert(stand_at(q, t, at));
    }
    if spelled_in(q, t) {
        let at = choose|at: Seq<int>| #[trigger] stand_at(q, t, at);
        lemma_greedy(q, t, starts, t.len(), q.len() as int, at);
    }
}

/// The key downwards marks the match below, and the key upwards the one above; neither goes
/// past an end, and neither changes the query or the matches. One undoes the other.
pub proof fn law_up_and_down(l: LauncherModel)
    requires
        l.selected < l.matches.len() <= usize::MAX,
    ensures
        l.selected + 1 < l.matches.len() ==> keyed(l, Stroke::Down).selected == l.selected + 1,
        l.selected + 1 == l.matches.len() ==> keyed(l, Stroke::Down) == l,
        l.selected > 0 ==> keyed(l, Stroke::Up).selected == l.selected - 1,
        l.selected == 0 ==> keyed(l, Stroke::Up) == l,
        keyed(l, Stroke::Down).query == l.query && keyed(l, Stroke::Up).query == l.query,
        keyed(l, Stroke::Down).matches == l.matches && keyed(l, Stroke::Up).matches == l.matches,
        l.selected + 1 < l.matches.len() ==> keyed(keyed(l, Stroke::Down), Stroke::Up) == l,
{
}

/// What is typed is added to the query, and a step back takes its last character away, so
/// that one undoes the other; the matches are those of the query.
pub proof fn law_typed(l: LauncherModel, c: char)
    requires
        !crate::launcher::is_control(c),
        l.matches == matches_of(l.entries, l.query),
        l.selected == 0,
        l.scroll == 0,
    ensures
        keyed(l, Stroke::Other(seq![c])).query == l.query.push(c),
        keyed(l, Stroke::Other(seq![c])).matches == matches_of(l.entries, l.query.push(c)),
        keyed(keyed(l, Stroke::Other(seq![c])), Stroke::BackSpace) == l,
{
    let s = seq![c];
    assert(s.drop_last() =~= Seq::<char>::empty());
    reveal_with_fuel(visible_text, 2);
    assert(visible_text(s) =~= s);
    assert(l.query + s =~= l.query.push(c));
    assert(l.query.push(c).drop_last() =~= l.query);
}

/// Escape closes the launcher and starts nothing. Return closes it and starts what is
/// marked: the command of that application, or else the line is handed over.
pub proof fn law_launched(w: World)
    requires
        w.launcher is Some,
    ensures
        ({
            let l = w.launcher->0;
            &&& launcher_keyed(w, Stroke::Escape).0.launcher is None
            &&& launcher_keyed(w, Stroke::Escape).1 is Nothing
            &&& launcher_keyed(w, Stroke::Enter).0.launcher is None
            &&& l.selected < l.matches.len() && l.execs is None && l.matches[l.selected as int] < l.entries.len()
                ==> launcher_keyed(w, Stroke::Enter).1 == Upshot::Pick(
                l.entries[l.matches[l.selected as int] as int],
            )
            &&& l.selected < l.matches.len() && l.execs is Some && l.matches[l.selected as int] < l.execs->0.len()
                ==> launcher_keyed(w, Stroke::Enter).1 == Upshot::Run(l.execs->0[l.matches[l.selected as int] as int])
            &&& l.selected >= l.matches.len() ==> launcher_keyed(w, Stroke::Enter).1 is Nothing
        }),
{
}

/// The box of the launcher is in the middle of a monitor that is wide enough, and its rows
/// are on the monitor.
pub proof fn law_panel(w: i32, h: i32, widest: i32)
    requires
        400 <= w,
        200 <= h,
    ensures
        ({
            let p = panel(w, h, widest);
            let right = w - (p.x + p.w);
            &&& 0 <= p.x && 0 <= right - p.x <= 1
            &&& 240 <= p.w <= w
            &&& widest >= 240 ==> p.w <= widest
            &&& 0 <= p.y < p.list
            &&& 1 <= p.rows
            &&& p.list + 36 * p.rows <= h
        }),
{
}

} // verus!
