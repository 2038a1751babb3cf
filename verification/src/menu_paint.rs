//! Painting the menu of a tray item.

use vstd::prelude::*;
use crate::menu::{columns_of, Column, Line, MenuColumn, MenuLine, MenuModel, MenuRow, TrayMenu};
use crate::monitor::{clip, clip_to, Rect};
use crate::paint::{add_paint, FontSize, Ink, Paint, Points};
use crate::render::at_least_one;
use crate::state::{State, World};
use crate::text::Text;
use crate::theme::Color;

verus! {

/// The background of a column.
pub const BACK: Color = (0x1d, 0x25, 0x2b, 0xff);

/// The text of a row.
pub const FRONT: Color = (0xf7, 0xf8, 0xf3, 0xff);

/// The background of a row that is marked.
pub const MARKED_BACK: Color = (0x4e, 0x9b, 0xcf, 0xff);

/// The text of a row that is marked.
pub const MARKED_FRONT: Color = (0xff, 0xff, 0xff, 0xff);

/// The text of a row that cannot be clicked.
pub const FAINT: Color = (0xf7, 0xf8, 0xf3, 0x66);

/// A line between rows.
pub const RULE: Color = (0xff, 0xff, 0xff, 0x22);

/// The edge of a column.
pub const EDGE: Color = (0x0a, 0x0c, 0x0f, 0xff);

// --- where columns are --------------------------------------------------------------------

/// The height of a row.
pub open spec fn row_height(l: Line) -> int {
    if l.is_separator {
        7
    } else {
        26
    }
}

/// Whether a row of a column has an icon.
pub open spec fn any_icon(lines: Seq<Line>) -> bool {
    exists|i: int| 0 <= i < lines.len() && (#[trigger] lines[i]).has_icon
}

/// The room for icons in a column.
pub open spec fn icon_room(lines: Seq<Line>) -> int {
    if any_icon(lines) {
        20
    } else {
        0
    }
}

/// The width of the widest text of a column.
pub open spec fn widest(lines: Seq<Line>, widths: Seq<i32>) -> int
    decreases lines.len(),
{
    if lines.len() == 0 {
        0
    } else {
        let before = widest(lines.drop_last(), widths);
        let here = widths[lines.len() - 1] as int;
        if !lines.last().is_separator && here > before {
            here
        } else {
            before
        }
    }
}

/// The width of a column.
pub open spec fn column_width(lines: Seq<Line>, widths: Seq<i32>) -> i32 {
    let w = 54 + icon_room(lines) + widest(lines, widths);
    if w < 150 {
        150
    } else if w > 460 {
        460
    } else {
        w as i32
    }
}

/// The height of rows, held within the range of coordinates.
pub open spec fn rows_height(lines: Seq<Line>) -> i32
    decreases lines.len(),
{
    if lines.len() == 0 {
        0
    } else {
        clip(rows_height(lines.drop_last()) + row_height(lines.last()))
    }
}

/// The height of a column.
pub open spec fn column_height(lines: Seq<Line>) -> i32 {
    if rows_height(lines) > 26 {
        rows_height(lines)
    } else {
        26
    }
}

/// The rows of a column whose upper end is at `y`.
pub open spec fn rows_from(lines: Seq<Line>, y: i32) -> Seq<MenuRow>
    decreases lines.len(),
{
    if lines.len() == 0 {
        Seq::empty()
    } else {
        let before = rows_from(lines.drop_last(), y);
        let y0 = if before.len() > 0 {
            before.last().y1
        } else {
            y
        };
        before.push(MenuRow { y0, y1: clip(y0 + row_height(lines.last())) })
    }
}

/// A place held so that something of a size stays inside, as far as it can.
pub open spec fn kept_in(v: int, size: int, room: int) -> i32 {
    let m = if v < room - size {
        v
    } else {
        room - size
    };
    if m > 0 {
        clip(m)
    } else {
        0
    }
}

/// The upper end of the row that a column belongs to.
pub open spec fn row_top(parent: Column, path: Seq<usize>, i: int) -> i32 {
    if i < path.len() && path[i] < parent.rows.len() {
        parent.rows[path[i] as int].y0
    } else {
        parent.y
    }
}

/// Where a column goes that belongs to a row of another: on its right, or on its left
/// where there is no room, and inside as far as it can be.
pub open spec fn beside(parent: Column, width: int, room: int) -> i32 {
    let right = parent.x + parent.w;
    let x = if right + width > room {
        parent.x - width
    } else {
        right
    };
    let least = if x > 0 {
        x
    } else {
        0
    };
    let most = if room - width > 0 {
        room - width
    } else {
        0
    };
    if least < most {
        clip(least)
    } else {
        clip(most)
    }
}

/// A column after those before it.
pub open spec fn next_column(
    before: Seq<Column>,
    lines: Seq<Line>,
    widths: Seq<i32>,
    path: Seq<usize>,
    anchor: (i32, i32),
    w: i32,
    h: i32,
) -> Column {
    let width = column_width(lines, widths);
    let height = column_height(lines);
    let (x, y) = if before.len() == 0 {
        (
            kept_in(anchor.0 as int, width as int, w as int),
            kept_in(anchor.1 as int, height as int, h as int),
        )
    } else {
        let parent = before.last();
        (
            beside(parent, width as int, w as int),
            kept_in(row_top(parent, path, before.len() - 1) as int, height as int, h as int),
        )
    };
    Column { x, y, w: width, h: height, rows: rows_from(lines, y) }
}

/// The columns of a menu.
pub open spec fn columns_laid(
    cols: Seq<Seq<Line>>,
    widths: Seq<Seq<i32>>,
    path: Seq<usize>,
    anchor: (i32, i32),
    w: i32,
    h: i32,
) -> Seq<Column>
    decreases cols.len(),
{
    if cols.len() == 0 {
        Seq::empty()
    } else {
        let before = columns_laid(cols.drop_last(), widths, path, anchor, w, h);
        before.push(
            next_column(before, cols.last(), widths[cols.len() - 1], path, anchor, w, h),
        )
    }
}

/// There are as many columns as there are menus open, and as many rows as lines.
pub proof fn lemma_columns_laid(
    cols: Seq<Seq<Line>>,
    widths: Seq<Seq<i32>>,
    path: Seq<usize>,
    anchor: (i32, i32),
    w: i32,
    h: i32,
)
    ensures
        columns_laid(cols, widths, path, anchor, w, h).len() == cols.len(),
        forall|i: int|
            0 <= i < cols.len() ==> (#[trigger] columns_laid(cols, widths, path, anchor, w, h)[i]).rows.len()
                == cols[i].len(),
    decreases cols.len(),
{
    if cols.len() > 0 {
        lemma_columns_laid(cols.drop_last(), widths, path, anchor, w, h);
        let before = columns_laid(cols.drop_last(), widths, path, anchor, w, h);
        let c = next_column(before, cols.last(), widths[cols.len() - 1], path, anchor, w, h);
        lemma_rows_from(cols.last(), c.y);
        let all = columns_laid(cols, widths, path, anchor, w, h);
        assert forall|i: int| 0 <= i < cols.len() implies (#[trigger] all[i]).rows.len() == cols[i].len() by {
            if i < before.len() {
                assert(all[i] == before[i]);
            }
        }
    }
}

proof fn lemma_rows_from(lines: Seq<Line>, y: i32)
    ensures
        rows_from(lines, y).len() == lines.len(),
    decreases lines.len(),
{
    if lines.len() > 0 {
        lemma_rows_from(lines.drop_last(), y);
    }
}

// --- what is painted ----------------------------------------------------------------------

/// A switch.
pub open spec fn toggle_inks(x: int, y: int, on: bool, color: Color) -> Seq<Ink> {
    let frame = seq![
        Ink::Fill { x: clip(x), y: clip(y), w: 12, h: 1, color },
        Ink::Fill { x: clip(x), y: clip(y + 11), w: 12, h: 1, color },
        Ink::Fill { x: clip(x), y: clip(y), w: 1, h: 12, color },
        Ink::Fill { x: clip(x + 11), y: clip(y), w: 1, h: 12, color },
    ];
    if on {
        frame.push(Ink::Fill { x: clip(x + 3), y: clip(y + 3), w: 6, h: 6, color })
    } else {
        frame
    }
}

/// An arrow to the right.
pub open spec fn arrow_inks(x: int, y: int, color: Color) -> Seq<Ink> {
    Seq::new(
        5,
        |i: int|
            Ink::Fill {
                x: clip(x + i),
                y: clip(y - (4 - i)),
                w: 1,
                h: (2 * (4 - i) + 1) as i32,
                color,
            },
    )
}

/// Whether a row is marked: it is under the pointer, or its menu is open.
pub open spec fn is_marked(m: MenuModel, ci: int, ri: int, l: Line) -> bool {
    l.enabled && ((m.hover is Some && m.hover->Some_0.0 == ci && m.hover->Some_0.1 == ri) || (ci
        < m.open_path.len() && m.open_path[ci] == ri))
}

/// The colour of a row's text.
pub open spec fn row_color(m: MenuModel, ci: int, ri: int, l: Line) -> Color {
    if !l.enabled {
        FAINT
    } else if is_marked(m, ci, ri, l) {
        MARKED_FRONT
    } else {
        FRONT
    }
}

/// The rule in the place of a row.
pub open spec fn rule_ink(c: Column, row: MenuRow) -> Ink {
    Ink::Fill {
        x: clip(c.x + 10),
        y: clip(row.y0 + (row.y1 - row.y0) / 2),
        w: (c.w - 20) as i32,
        h: 1,
        color: RULE,
    }
}

/// The background of a row that is marked.
pub open spec fn mark_inks(c: Column, row: MenuRow, marked: bool) -> Seq<Ink> {
    if marked {
        seq![Ink::Fill { x: c.x, y: row.y0, w: c.w, h: 26, color: MARKED_BACK }]
    } else {
        Seq::empty()
    }
}

/// The switch of a row that has one.
pub open spec fn switch_inks(c: Column, row: MenuRow, l: Line, color: Color) -> Seq<Ink> {
    if l.toggle {
        toggle_inks(c.x + 10, row.y0 + 7, l.on, color)
    } else {
        Seq::empty()
    }
}

/// The icon of a row that has one.
pub open spec fn icon_inks(c: Column, row: MenuRow, l: Line, ci: int, ri: int) -> Seq<Ink> {
    if l.has_icon {
        seq![
            Ink::RowIcon {
                x: clip(c.x + 28),
                y: clip(row.y0 + 4),
                size: 18,
                column: ci as usize,
                row: ri as usize,
            },
        ]
    } else {
        Seq::empty()
    }
}

/// The arrow of a row that leads on.
pub open spec fn onward_inks(c: Column, row: MenuRow, l: Line, color: Color) -> Seq<Ink> {
    if l.has_submenu {
        arrow_inks(c.x + c.w - 15, row.y0 + 13, color)
    } else {
        Seq::empty()
    }
}

/// A row.
pub open spec fn row_inks(m: MenuModel, c: Column, lines: Seq<Line>, ci: int, ri: int) -> Seq<Ink> {
    let l = lines[ri];
    let row = c.rows[ri];
    let color = row_color(m, ci, ri, l);
    if l.is_separator {
        seq![rule_ink(c, row)]
    } else {
        let label = Ink::Text {
            x: clip(c.x + 28 + icon_room(lines)),
            y: clip(row.y0 + 5),
            text: l.label,
            font: Points::Px(14),
            color,
            family: None,
        };
        (mark_inks(c, row, is_marked(m, ci, ri, l)) + switch_inks(c, row, l, color) + icon_inks(
            c,
            row,
            l,
            ci,
            ri,
        )).push(label) + onward_inks(c, row, l, color)
    }
}

/// The first rows of a column.
pub open spec fn rows_inks(m: MenuModel, c: Column, lines: Seq<Line>, ci: int, n: int) -> Seq<Ink>
    decreases n,
{
    if n <= 0 {
        Seq::empty()
    } else {
        rows_inks(m, c, lines, ci, n - 1) + row_inks(m, c, lines, ci, n - 1)
    }
}

/// A column: its edge, its background and its rows.
pub open spec fn column_inks(m: MenuModel, c: Column, lines: Seq<Line>, ci: int) -> Seq<Ink> {
    seq![
        Ink::Fill { x: clip(c.x - 1), y: clip(c.y - 1), w: clip(c.w + 2), h: clip(c.h + 2), color: EDGE },
        Ink::Fill { x: c.x, y: c.y, w: c.w, h: c.h, color: BACK },
    ] + rows_inks(m, c, lines, ci, lines.len() as int)
}

/// The first columns.
pub open spec fn columns_inks(m: MenuModel, cs: Seq<Column>, cols: Seq<Seq<Line>>, n: int) -> Seq<Ink>
    decreases n,
{
    if n <= 0 {
        Seq::empty()
    } else {
        columns_inks(m, cs, cols, n - 1) + column_inks(m, cs[n - 1], cols[n - 1], n - 1)
    }
}

/// The menu as it is painted, its columns as they are laid out.
pub open spec fn menu_painted(m: MenuModel, widths: Seq<Seq<i32>>) -> (Seq<Column>, Seq<Ink>) {
    let cols = columns_of(m.root, m.open_path);
    let anchor = (clip(m.anchor.0 - m.mon.x), clip(m.anchor.1 - m.mon.y));
    let cs = columns_laid(
        cols,
        widths,
        m.open_path,
        anchor,
        at_least_one(m.mon.w),
        at_least_one(m.mon.h),
    );
    (cs, columns_inks(m, cs, cols, cols.len() as int))
}

// --- painting -----------------------------------------------------------------------------

/// Whether a row of a column has an icon.
fn has_any_icon(lines: &Vec<MenuLine>) -> (r: bool)
    ensures
        r == any_icon(lines.deep_view()),
{
    let mut i: usize = 0;
    while i < lines.len()
        invariant
            i <= lines@.len(),
            forall|j: int| 0 <= j < i ==> !(#[trigger] lines.deep_view()[j]).has_icon,
        decreases lines@.len() - i,
    {
        if lines[i].has_icon {
            assert(lines.deep_view()[i as int].has_icon);
            return true;
        }
        i += 1;
    }
    false
}

/// The width of a column.
fn width_of_column(lines: &Vec<MenuLine>, widths: &Vec<i32>) -> (r: i32)
    requires
        widths@.len() == lines@.len(),
    ensures
        r == column_width(lines.deep_view(), widths@),
{
    let ghost all = lines.deep_view();
    let mut most: i32 = 0;
    let mut i: usize = 0;
    assert(all.take(0) =~= Seq::<Line>::empty());
    while i < lines.len()
        invariant
            i <= lines@.len() == all.len(),
            widths@.len() == lines@.len(),
            all == lines.deep_view(),
            most >= 0,
            most == widest(all.take(i as int), widths@),
        decreases lines@.len() - i,
    {
        assert(all.take(i + 1).drop_last() =~= all.take(i as int));
        assert(all.take(i + 1).last() == lines@[i as int].deep_view());
        if !lines[i].is_separator && widths[i] > most {
            most = widths[i];
        }
        i += 1;
    }
    assert(all.take(i as int) =~= all);
    let room: i64 = if has_any_icon(lines) {
        20
    } else {
        0
    };
    let w: i64 = 54 + room + most as i64;
    if w < 150 {
        150
    } else if w > 460 {
        460
    } else {
        w as i32
    }
}

/// The height of a column.
fn height_of_column(lines: &Vec<MenuLine>) -> (r: i32)
    ensures
        r == column_height(lines.deep_view()),
{
    let ghost all = lines.deep_view();
    let mut sum: i32 = 0;
    let mut i: usize = 0;
    assert(all.take(0) =~= Seq::<Line>::empty());
    while i < lines.len()
        invariant
            i <= lines@.len() == all.len(),
            all == lines.deep_view(),
            sum == rows_height(all.take(i as int)),
        decreases lines@.len() - i,
    {
        assert(all.take(i + 1).drop_last() =~= all.take(i as int));
        assert(all.take(i + 1).last() == lines@[i as int].deep_view());
        let high: i128 = if lines[i].is_separator {
            7
        } else {
            26
        };
        sum = clip_to(sum as i128 + high);
        i += 1;
    }
    assert(all.take(i as int) =~= all);
    if sum > 26 {
        sum
    } else {
        26
    }
}

/// The rows of a column.
fn make_rows(lines: &Vec<MenuLine>, y: i32) -> (r: Vec<MenuRow>)
    ensures
        r@ == rows_from(lines.deep_view(), y),
{
    let ghost all = lines.deep_view();
    let mut r: Vec<MenuRow> = Vec::new();
    let mut at: i32 = y;
    let mut i: usize = 0;
    assert(all.take(0) =~= Seq::<Line>::empty());
    while i < lines.len()
        invariant
            i <= lines@.len() == all.len(),
            all == lines.deep_view(),
            r@ == rows_from(all.take(i as int), y),
            at == (if r@.len() > 0 {
                r@.last().y1
            } else {
                y
            }),
        decreases lines@.len() - i,
    {
        assert(all.take(i + 1).drop_last() =~= all.take(i as int));
        assert(all.take(i + 1).last() == lines@[i as int].deep_view());
        let high: i128 = if lines[i].is_separator {
            7
        } else {
            26
        };
        let end: i32 = clip_to(at as i128 + high);
        r.push(MenuRow { y0: at, y1: end });
        at = end;
        i += 1;
    }
    assert(all.take(i as int) =~= all);
    r
}

/// A place held so that something of a size stays inside.
fn keep_in(v: i32, size: i32, room: i32) -> (r: i32)
    ensures
        r == kept_in(v as int, size as int, room as int),
{
    let most: i64 = room as i64 - size as i64;
    let m: i64 = if (v as i64) < most {
        v as i64
    } else {
        most
    };
    if m > 0 {
        clip_to(m as i128)
    } else {
        0
    }
}

/// Where a column goes that belongs to a row of another.
fn put_beside(parent: &MenuColumn, width: i32, room: i32) -> (r: i32)
    ensures
        r == beside(parent.deep_view(), width as int, room as int),
{
    let right: i64 = parent.x as i64 + parent.w as i64;
    let x: i64 = if right + width as i64 > room as i64 {
        parent.x as i64 - width as i64
    } else {
        right
    };
    let least: i64 = if x > 0 {
        x
    } else {
        0
    };
    let most: i64 = if room as i64 - width as i64 > 0 {
        room as i64 - width as i64
    } else {
        0
    };
    if least < most {
        clip_to(least as i128)
    } else {
        clip_to(most as i128)
    }
}

/// Makes a column after those before it.
fn make_column(
    before: &Vec<MenuColumn>,
    lines: &Vec<MenuLine>,
    widths: &Vec<i32>,
    path: &Vec<usize>,
    anchor: (i32, i32),
    w: i32,
    h: i32,
) -> (r: MenuColumn)
    requires
        widths@.len() == lines@.len(),
    ensures
        r.deep_view() == next_column(
            before.deep_view(),
            lines.deep_view(),
            widths@,
            path@,
            anchor,
            w,
            h,
        ),
{
    let width: i32 = width_of_column(lines, widths);
    let height: i32 = height_of_column(lines);
    let n: usize = before.len();
    let (x, y): (i32, i32) = if n == 0 {
        (keep_in(anchor.0, width, w), keep_in(anchor.1, height, h))
    } else {
        let parent = &before[n - 1];
        assert(before.deep_view().last() == parent.deep_view());
        let top: i32 = if n - 1 < path.len() && path[n - 1] < parent.rows.len() {
            parent.rows[path[n - 1]].y0
        } else {
            parent.y
        };
        (put_beside(parent, width, w), keep_in(top, height, h))
    };
    MenuColumn { x, y, w: width, h: height, rows: make_rows(lines, y) }
}

/// Paints a switch.
fn draw_toggle(out: &mut Vec<Paint>, x: i64, y: i64, on: bool, color: Color)
    requires
        -0x2_0000_0000 <= x <= 0x2_0000_0000,
        -0x2_0000_0000 <= y <= 0x2_0000_0000,
    ensures
        final(out).deep_view() == old(out).deep_view() + toggle_inks(x as int, y as int, on, color),
{
    let ghost before = out.deep_view();
    let x0: i32 = clip_to(x as i128);
    let y0: i32 = clip_to(y as i128);
    add_paint(out, Paint::Fill { x: x0, y: y0, w: 12, h: 1, color });
    add_paint(out, Paint::Fill { x: x0, y: clip_to(y as i128 + 11), w: 12, h: 1, color });
    add_paint(out, Paint::Fill { x: x0, y: y0, w: 1, h: 12, color });
    add_paint(out, Paint::Fill { x: clip_to(x as i128 + 11), y: y0, w: 1, h: 12, color });
    if on {
        add_paint(
            out,
            Paint::Fill { x: clip_to(x as i128 + 3), y: clip_to(y as i128 + 3), w: 6, h: 6, color },
        );
    }
    assert(out.deep_view() =~= before + toggle_inks(x as int, y as int, on, color));
}

/// Paints an arrow to the right.
fn draw_arrow(out: &mut Vec<Paint>, x: i64, y: i64, color: Color)
    requires
        -0x2_0000_0000 <= x <= 0x2_0000_0000,
        -0x2_0000_0000 <= y <= 0x2_0000_0000,
    ensures
        final(out).deep_view() == old(out).deep_view() + arrow_inks(x as int, y as int, color),
{
    let ghost before = out.deep_view();
    let ghost all = arrow_inks(x as int, y as int, color);
    let mut i: i32 = 0;
    assert(out.deep_view() =~= before + all.take(0));
    while i < 5
        invariant
            0 <= i <= 5,
            -0x2_0000_0000 <= x <= 0x2_0000_0000,
            -0x2_0000_0000 <= y <= 0x2_0000_0000,
            all == arrow_inks(x as int, y as int, color),
            out.deep_view() == before + all.take(i as int),
        decreases 5 - i,
    {
        let half: i32 = 4 - i;
        add_paint(
            out,
            Paint::Fill {
                x: clip_to(x as i128 + i as i128),
                y: clip_to(y as i128 - half as i128),
                w: 1,
                h: 2 * half + 1,
                color,
            },
        );
        i += 1;
        assert(out.deep_view() =~= before + all.take(i as int));
    }
    assert(all.take(5) =~= all);
}

/// Paints what stands before a row's label.
fn draw_head(
    out: &mut Vec<Paint>,
    c: &MenuColumn,
    row: MenuRow,
    l: &MenuLine,
    marked: bool,
    color: Color,
    ci: usize,
    ri: usize,
)
    ensures
        final(out).deep_view() == old(out).deep_view() + (mark_inks(c.deep_view(), row, marked)
            + switch_inks(c.deep_view(), row, l.deep_view(), color) + icon_inks(
            c.deep_view(),
            row,
            l.deep_view(),
            ci as int,
            ri as int,
        )),
{
    let ghost before = out.deep_view();
    let ghost mark = mark_inks(c.deep_view(), row, marked);
    let ghost toggle = switch_inks(c.deep_view(), row, l.deep_view(), color);
    if marked {
        add_paint(out, Paint::Fill { x: c.x, y: row.y0, w: c.w, h: 26, color: MARKED_BACK });
    }
    assert(out.deep_view() =~= before + mark);
    if l.toggle {
        draw_toggle(out, c.x as i64 + 10, row.y0 as i64 + 7, l.on, color);
    }
    assert(out.deep_view() =~= before + (mark + toggle));
    if l.has_icon {
        add_paint(
            out,
            Paint::RowIcon {
                x: clip_to(c.x as i128 + 28),
                y: clip_to(row.y0 as i128 + 4),
                size: 18,
                column: ci,
                row: ri,
            },
        );
    }
    assert(out.deep_view() =~= before + (mark + toggle + icon_inks(
        c.deep_view(),
        row,
        l.deep_view(),
        ci as int,
        ri as int,
    )));
}

impl TrayMenu {
    /// Whether a row is marked.
    fn marks(&self, ci: usize, ri: usize, enabled: bool) -> (r: bool)
        ensures
            forall|l: Line|
                l.enabled == enabled ==> r == #[trigger] is_marked(
                    self.deep_view(),
                    ci as int,
                    ri as int,
                    l,
                ),
    {
        let over: bool = match self.hover {
            Some((c, r)) => c == ci && r == ri,
            None => false,
        };
        enabled && (over || (ci < self.open_path.len() && self.open_path[ci] == ri))
    }

    /// Paints a row.
    fn draw_row(
        &self,
        out: &mut Vec<Paint>,
        c: &MenuColumn,
        lines: &Vec<MenuLine>,
        icons: bool,
        ci: usize,
        ri: usize,
    )
        requires
            ri < lines@.len(),
            c.rows@.len() == lines@.len(),
            icons == any_icon(lines.deep_view()),
            150 <= c.w <= 460,
            c.rows@[ri as int].y0 <= c.rows@[ri as int].y1,
        ensures
            final(out).deep_view() == old(out).deep_view() + row_inks(
                self.deep_view(),
                c.deep_view(),
                lines.deep_view(),
                ci as int,
                ri as int,
            ),
    {
        let ghost before = out.deep_view();
        let l = &lines[ri];
        let row = c.rows[ri];
        let ghost ln = lines.deep_view()[ri as int];
        assert(ln == l.deep_view());
        assert(c.deep_view().rows[ri as int] == row);
        if l.is_separator {
            let half: i64 = (row.y1 as i64 - row.y0 as i64) / 2;
            let rule = Paint::Fill {
                x: clip_to(c.x as i128 + 10),
                y: clip_to(row.y0 as i128 + half as i128),
                w: c.w - 20,
                h: 1,
                color: RULE,
            };
            add_paint(out, rule);
            assert(out.deep_view() =~= before + seq![rule_ink(c.deep_view(), row)]);
            return;
        }
        let marked: bool = self.marks(ci, ri, l.enabled);
        assert(marked == is_marked(self.deep_view(), ci as int, ri as int, ln));
        let color: Color = if !l.enabled {
            FAINT
        } else if marked {
            MARKED_FRONT
        } else {
            FRONT
        };
        draw_head(out, c, row, l, marked, color, ci, ri);
        let ghost head = out.deep_view();
        let room: i128 = if icons {
            20
        } else {
            0
        };
        let label = Paint::Text {
            x: clip_to(c.x as i128 + 28 + room),
            y: clip_to(row.y0 as i128 + 5),
            text: l.label.clone(),
            font: FontSize::Px(14),
            color,
            family: None,
        };
        add_paint(out, label);
        if l.has_submenu {
            draw_arrow(out, c.x as i64 + c.w as i64 - 15, row.y0 as i64 + 13, color);
        }
        let ghost arrow = onward_inks(c.deep_view(), row, ln, color);
        assert(out.deep_view() =~= head.push(label.deep_view()) + arrow);
        assert(out.deep_view() =~= before + row_inks(
            self.deep_view(),
            c.deep_view(),
            lines.deep_view(),
            ci as int,
            ri as int,
        ));
    }

    /// Paints a column.
    fn draw_column(&self, out: &mut Vec<Paint>, c: &MenuColumn, lines: &Vec<MenuLine>, ci: usize)
        requires
            c.rows@.len() == lines@.len(),
            150 <= c.w <= 460,
            forall|k: int| 0 <= k < c.rows@.len() ==> (#[trigger] c.rows@[k]).y0 <= c.rows@[k].y1,
        ensures
            final(out).deep_view() == old(out).deep_view() + column_inks(
                self.deep_view(),
                c.deep_view(),
                lines.deep_view(),
                ci as int,
            ),
    {
        let ghost before = out.deep_view();
        let ghost m = self.deep_view();
        let ghost cm = c.deep_view();
        let ghost all = lines.deep_view();
        let icons: bool = has_any_icon(lines);
        add_paint(
            out,
            Paint::Fill {
                x: clip_to(c.x as i128 - 1),
                y: clip_to(c.y as i128 - 1),
                w: clip_to(c.w as i128 + 2),
                h: clip_to(c.h as i128 + 2),
                color: EDGE,
            },
        );
        add_paint(out, Paint::Fill { x: c.x, y: c.y, w: c.w, h: c.h, color: BACK });
        let ghost head = out.deep_view();
        let mut i: usize = 0;
        assert(out.deep_view() =~= head + rows_inks(m, cm, all, ci as int, 0));
        while i < lines.len()
            invariant
                i <= lines@.len() == all.len(),
                c.rows@.len() == lines@.len(),
                150 <= c.w <= 460,
                forall|k: int| 0 <= k < c.rows@.len() ==> (#[trigger] c.rows@[k]).y0 <= c.rows@[k].y1,
                m == self.deep_view(),
                cm == c.deep_view(),
                all == lines.deep_view(),
                icons == any_icon(all),
                out.deep_view() == head + rows_inks(m, cm, all, ci as int, i as int),
            decreases lines@.len() - i,
        {
            let ghost o0 = rows_inks(m, cm, all, ci as int, i as int);
            self.draw_row(out, c, lines, icons, ci, i);
            assert((head + o0) + row_inks(m, cm, all, ci as int, i as int) =~= head + (o0 + row_inks(
                m,
                cm,
                all,
                ci as int,
                i as int,
            )));
            i += 1;
        }
        assert(out.deep_view() =~= before + column_inks(m, cm, all, ci as int));
    }

    /// Paints the menu: its columns as they are laid out, and what is painted. `widths` are
    /// those of the labels, column by column.
    pub fn paint(&self, widths: &Vec<Vec<i32>>) -> (r: (Vec<MenuColumn>, Vec<Paint>))
        requires
            widths.deep_view().len() == columns_of(self.root@, self.open_path@).len(),
            forall|i: int|
                0 <= i < widths@.len() ==> (#[trigger] widths@[i])@.len() == columns_of(
                    self.root@,
                    self.open_path@,
                )[i].len(),
        ensures
            (r.0.deep_view(), r.1.deep_view()) == menu_painted(self.deep_view(), widths.deep_view()),
    {
        let ghost m = self.deep_view();
        let cols = self.columns_nodes();
        let ghost all = cols.deep_view();
        let w: i32 = if self.mon.w > 1 {
            self.mon.w
        } else {
            1
        };
        let h: i32 = if self.mon.h > 1 {
            self.mon.h
        } else {
            1
        };
        let anchor: (i32, i32) = (
            clip_to(self.anchor.0 as i128 - self.mon.x as i128),
            clip_to(self.anchor.1 as i128 - self.mon.y as i128),
        );
        let ghost ws = widths.deep_view();
        let ghost path = self.open_path@;
        let mut cs: Vec<MenuColumn> = Vec::new();
        let mut i: usize = 0;
        assert(all.take(0) =~= Seq::<Seq<Line>>::empty());
        assert(cs.deep_view() =~= Seq::<Column>::empty());
        while i < cols.len()
            invariant
                i <= cols@.len() == all.len(),
                all == cols.deep_view(),
                ws == widths.deep_view(),
                path == self.open_path@,
                widths@.len() == all.len(),
                forall|k: int| 0 <= k < widths@.len() ==> (#[trigger] widths@[k])@.len() == all[k].len(),
                cs.deep_view() == columns_laid(all.take(i as int), ws, path, anchor, w, h),
            decreases cols@.len() - i,
        {
            assert(all.take(i + 1).drop_last() =~= all.take(i as int));
            assert(all.take(i + 1).last() == cols@[i as int].deep_view());
            assert(all[i as int].len() == cols@[i as int]@.len());
            assert(widths@[i as int].deep_view() =~= widths@[i as int]@);
            assert(ws[i as int] == widths@[i as int]@);
            let ghost before = cs.deep_view();
            let c = make_column(&cs, &cols[i], &widths[i], &self.open_path, anchor, w, h);
            cs.push(c);
            assert(cs.deep_view() =~= before.push(c.deep_view()));
            i += 1;
        }
        assert(all.take(i as int) =~= all);
        let ghost laid = cs.deep_view();
        proof {
            lemma_columns_laid(all, ws, path, anchor, w, h);
            lemma_columns_sound(all, ws, path, anchor, w, h);
        }
        let mut out: Vec<Paint> = Vec::new();
        let mut k: usize = 0;
        assert(out.deep_view() =~= columns_inks(m, laid, all, 0));
        while k < cols.len()
            invariant
                k <= cols@.len() == all.len(),
                all == cols.deep_view(),
                laid == cs.deep_view(),
                laid.len() == all.len(),
                m == self.deep_view(),
                forall|i: int| 0 <= i < all.len() ==> (#[trigger] laid[i]).rows.len() == all[i].len(),
                forall|i: int| 0 <= i < all.len() ==> sound_column(#[trigger] laid[i]),
                out.deep_view() == columns_inks(m, laid, all, k as int),
            decreases cols@.len() - k,
        {
            assert(laid[k as int] == cs@[k as int].deep_view());
            assert(all[k as int] == cols@[k as int].deep_view());
            assert(sound_column(laid[k as int]));
            self.draw_column(&mut out, &cs[k], &cols[k], k);
            k += 1;
        }
        (cs, out)
    }
}

/// A column is neither too narrow nor too wide, and none of its rows is upside down.
pub open spec fn sound_column(c: Column) -> bool {
    &&& 150 <= c.w <= 460
    &&& forall|k: int| 0 <= k < c.rows.len() ==> (#[trigger] c.rows[k]).y0 <= c.rows[k].y1
}

proof fn lemma_rows_sound(lines: Seq<Line>, y: i32)
    ensures
        forall|k: int|
            0 <= k < rows_from(lines, y).len() ==> (#[trigger] rows_from(lines, y)[k]).y0 <= rows_from(
                lines,
                y,
            )[k].y1,
    decreases lines.len(),
{
    if lines.len() > 0 {
        lemma_rows_sound(lines.drop_last(), y);
        let before = rows_from(lines.drop_last(), y);
        let now = rows_from(lines, y);
        assert forall|k: int| 0 <= k < now.len() implies (#[trigger] now[k]).y0 <= now[k].y1 by {
            if k < before.len() {
                assert(now[k] == before[k]);
            }
        }
    }
}

proof fn lemma_columns_sound(
    cols: Seq<Seq<Line>>,
    widths: Seq<Seq<i32>>,
    path: Seq<usize>,
    anchor: (i32, i32),
    w: i32,
    h: i32,
)
    ensures
        forall|i: int|
            0 <= i < columns_laid(cols, widths, path, anchor, w, h).len() ==> sound_column(
                #[trigger] columns_laid(cols, widths, path, anchor, w, h)[i],
            ),
    decreases cols.len(),
{
    if cols.len() > 0 {
        lemma_columns_sound(cols.drop_last(), widths, path, anchor, w, h);
        let before = columns_laid(cols.drop_last(), widths, path, anchor, w, h);
        let c = next_column(before, cols.last(), widths[cols.len() - 1], path, anchor, w, h);
        lemma_rows_sound(cols.last(), c.y);
        let all = columns_laid(cols, widths, path, anchor, w, h);
        assert forall|i: int| 0 <= i < all.len() implies sound_column(#[trigger] all[i]) by {
            if i < before.len() {
                assert(all[i] == before[i]);
            }
        }
    }
}

/// A menu as it is painted.
#[derive(Debug)]
pub struct MenuFrame {
    /// The monitor that it covers.
    pub rect: Rect,
    /// What is painted on it.
    pub paints: Vec<Paint>,
}

impl State {
    /// Paints the menu, and notes where its columns are. `widths` are those of the labels,
    /// column by column.
    pub fn render_menu(&mut self, widths: &Vec<Vec<i32>>) -> (r: Option<MenuFrame>)
        requires
            old(self)@.wf(),
            old(self)@.tray_menu matches Some(m) ==> {
                &&& widths@.len() == columns_of(m.root, m.open_path).len()
                &&& forall|i: int|
                    0 <= i < widths@.len() ==> (#[trigger] widths@[i])@.len() == columns_of(
                        m.root,
                        m.open_path,
                    )[i].len()
            },
        ensures
            match old(self)@.tray_menu {
                Some(m) if old(self)@.globals.shm => {
                    &&& r is Some
                    &&& r->0.rect == (Rect {
                        x: m.mon.x,
                        y: m.mon.y,
                        w: at_least_one(m.mon.w),
                        h: at_least_one(m.mon.h),
                    })
                    &&& r->0.paints.deep_view() == menu_painted(m, widths.deep_view()).1
                    &&& final(self)@ == (World {
                        tray_menu: Some(
                            MenuModel { columns: menu_painted(m, widths.deep_view()).0, ..m },
                        ),
                        ..old(self)@
                    })
                },
                _ => r is None && final(self)@ == old(self)@,
            },
            final(self)@.wf(),
    {
        if !self.globals.shm {
            return None;
        }
        match &mut self.tray_menu {
            None => None,
            Some(m) => {
                let (columns, paints) = m.paint(widths);
                m.columns = columns;
                let w: i32 = if m.mon.w > 1 {
                    m.mon.w
                } else {
                    1
                };
                let h: i32 = if m.mon.h > 1 {
                    m.mon.h
                } else {
                    1
                };
                Some(MenuFrame { rect: Rect::new(m.mon.x, m.mon.y, w, h), paints })
            },
        }
    }
}

} // verus!
