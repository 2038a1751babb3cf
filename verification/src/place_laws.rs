//! Where the windows of a frame tree are: within the area, and no two on top of each
//! other.

use vstd::prelude::*;
use crate::frame::{LayoutMode, Orientation};
use crate::monitor::{quotient, Rect};
use crate::outputs::in_rect;
use crate::ratio::{law_share_fits, Ratio};
use crate::tree::{cell, cut, grid_cells, grid_columns, grid_rows, room, root_from, Tree};

verus! {

/// Whether every point of a rectangle lies in the area.
pub open spec fn inside(r: Rect, area: Rect) -> bool {
    forall|x: int, y: int| #[trigger] in_rect(r, x, y) ==> in_rect(area, x, y)
}

/// Whether no point lies in both rectangles.
pub open spec fn apart(a: Rect, b: Rect) -> bool {
    forall|x: int, y: int| !(#[trigger] in_rect(a, x, y) && in_rect(b, x, y))
}

/// Whether the far edges of a rectangle are within the range of coordinates.
pub open spec fn on_grid(r: Rect) -> bool {
    r.x + r.w <= i32::MAX && r.y + r.h <= i32::MAX
}

proof fn lemma_cut(area: Rect, orient: Orientation, ratio: Ratio, gap: int)
    requires
        0 <= gap,
        ratio.wf(),
        on_grid(area),
    ensures
        ({
            let (a, b) = cut(area, orient, ratio, gap);
            &&& inside(a, area) && on_grid(a)
            &&& inside(b, area) && on_grid(b)
            &&& apart(a, b)
        }),
{
    law_share_fits(room(area.w as int, gap) as nat, ratio);
    law_share_fits(room(area.h as int, gap) as nat, ratio);
}

/// Of `n` strips of equal length with gaps between them, each lies within the whole.
proof fn lemma_strip(len: int, n: int, i: int, gap: int)
    requires
        0 <= i < n,
        0 <= gap,
        quotient(len - (n - 1) * gap, n) > 0,
    ensures
        ({
            let h = quotient(len - (n - 1) * gap, n);
            0 <= i * (h + gap) && i * (h + gap) + h <= len
        }),
{
    let a = len - (n - 1) * gap;
    let h = quotient(a, n);
    if a < 0 {
        assert((-a) / n >= 0) by (nonlinear_arith)
            requires
                a < 0,
                n > 0,
        ;
    }
    assert(n * h <= a) by (nonlinear_arith)
        requires
            a >= 0,
            n > 0,
            h == a / n,
    ;
    assert(0 <= i * (h + gap) <= (n - 1) * (h + gap)) by (nonlinear_arith)
        requires
            0 <= i < n,
            h > 0,
            gap >= 0,
    ;
    assert((n - 1) * (h + gap) + h == n * h + (n - 1) * gap) by (nonlinear_arith);
}

/// One strip ends before a later one starts.
proof fn lemma_strips_apart(i: int, j: int, h: int, gap: int)
    requires
        0 <= i < j,
        h > 0,
        gap >= 0,
    ensures
        i * (h + gap) + h <= j * (h + gap),
{
    assert(i * (h + gap) + h <= j * (h + gap)) by (nonlinear_arith)
        requires
            i + 1 <= j,
            h > 0,
            gap >= 0,
    ;
}

proof fn lemma_root(n: int, c: int)
    requires
        c >= 1,
    ensures
        root_from(n, c) >= 1,
    decreases n - c,
{
    if !(c >= n || c * c >= n) {
        lemma_root(n, c + 1);
    }
}

/// Where a cell of a grid is: in one of its rows, at a place that the row has.
proof fn lemma_grid(n: int, i: int)
    requires
        0 <= i < n,
    ensures
        ({
            let col = i % grid_columns(n);
            let row = i / grid_columns(n);
            &&& grid_columns(n) >= 1
            &&& 0 <= row < grid_rows(n)
            &&& 0 <= col < grid_cells(n, row)
            &&& i == row * grid_columns(n) + col
        }),
{
    lemma_root(n, 1);
    let c = grid_columns(n);
    let col = i % c;
    let row = i / c;
    let rows = grid_rows(n);
    assert(i == row * c + col && 0 <= col < c && row >= 0) by (nonlinear_arith)
        requires
            c >= 1,
            i >= 0,
            col == i % c,
            row == i / c,
    ;
    assert((rows - 1) * c < n <= rows * c) by (nonlinear_arith)
        requires
            c >= 1,
            n >= 1,
            rows == (n + c - 1) / c,
    ;
    assert(row < rows) by (nonlinear_arith)
        requires
            c >= 1,
            row * c <= i < n <= rows * c,
    ;
    if row == rows - 1 && n % c != 0 {
        let m = n - (rows - 1) * c;
        assert(rows * c == (rows - 1) * c + c) by (nonlinear_arith);
        if m == c {
            vstd::arithmetic::div_mod::lemma_fundamental_div_mod_converse(n, c, rows, 0);
        }
        vstd::arithmetic::div_mod::lemma_fundamental_div_mod_converse(n, c, rows - 1, m);
    }
}

proof fn lemma_cell(layout: LayoutMode, area: Rect, n: int, i: int, gap: int)
    requires
        0 <= i < n,
        0 <= gap,
        on_grid(area),
    ensures
        inside(cell(layout, area, n, i, gap), area),
{
    match layout {
        LayoutMode::Max => {},
        LayoutMode::Vertical => {
            if quotient(area.h - (n - 1) * gap, n) > 0 {
                lemma_strip(area.h as int, n, i, gap);
            }
        },
        LayoutMode::Horizontal => {
            if quotient(area.w - (n - 1) * gap, n) > 0 {
                lemma_strip(area.w as int, n, i, gap);
            }
        },
        LayoutMode::Grid => {
            lemma_grid(n, i);
            let col = i % grid_columns(n);
            let row = i / grid_columns(n);
            let cells = grid_cells(n, row);
            let rows = grid_rows(n);
            if quotient(area.w - (cells - 1) * gap, cells) > 0 && quotient(
                area.h - (rows - 1) * gap,
                rows,
            ) > 0 {
                lemma_strip(area.w as int, cells, col, gap);
                lemma_strip(area.h as int, rows, row, gap);
            }
        },
    }
}

proof fn lemma_cells_apart(layout: LayoutMode, area: Rect, n: int, i: int, j: int, gap: int)
    requires
        0 <= i < j < n,
        0 <= gap,
        on_grid(area),
        layout != LayoutMode::Max,
    ensures
        apart(cell(layout, area, n, i, gap), cell(layout, area, n, j, gap)),
{
    match layout {
        LayoutMode::Max => {},
        LayoutMode::Vertical => {
            let h = quotient(area.h - (n - 1) * gap, n);
            if h > 0 {
                lemma_strip(area.h as int, n, i, gap);
                lemma_strip(area.h as int, n, j, gap);
                lemma_strips_apart(i, j, h, gap);
            }
        },
        LayoutMode::Horizontal => {
            let w = quotient(area.w - (n - 1) * gap, n);
            if w > 0 {
                lemma_strip(area.w as int, n, i, gap);
                lemma_strip(area.w as int, n, j, gap);
                lemma_strips_apart(i, j, w, gap);
            }
        },
        LayoutMode::Grid => {
            lemma_grid(n, i);
            lemma_grid(n, j);
            let c = grid_columns(n);
            let rows = grid_rows(n);
            let h = quotient(area.h - (rows - 1) * gap, rows);
            if i / c == j / c {
                let cells = grid_cells(n, i / c);
                let w = quotient(area.w - (cells - 1) * gap, cells);
                if w > 0 {
                    lemma_strip(area.w as int, cells, i % c, gap);
                    lemma_strip(area.w as int, cells, j % c, gap);
                    lemma_strips_apart(i % c, j % c, w, gap);
                }
            } else if h > 0 {
                assert(i / c < j / c) by (nonlinear_arith)
                    requires
                        0 <= i < j,
                        c >= 1,
                        i / c != j / c,
                ;
                lemma_strip(area.h as int, rows, i / c, gap);
                lemma_strip(area.h as int, rows, j / c, gap);
                lemma_strips_apart(i / c, j / c, h, gap);
            }
        },
    }
}

/// Every point that a window is placed on lies in the area.
pub proof fn law_placed_inside(t: Tree, area: Rect, gap: int)
    requires
        t.wf(),
        0 <= gap,
        on_grid(area),
    ensures
        forall|i: int|
            0 <= i < t.place(area, gap).len() ==> inside((#[trigger] t.place(area, gap)[i]).rect, area),
    decreases t,
{
    let all = t.place(area, gap);
    match t {
        Tree::Leaf { windows, selected, layout } => {
            assert forall|i: int| 0 <= i < all.len() implies inside((#[trigger] all[i]).rect, area) by {
                lemma_cell(layout, area, windows.len() as int, i, gap);
            }
        },
        Tree::Split { orient, ratio, selection, first, second } => {
            let (x, y) = cut(area, orient, ratio, gap);
            lemma_cut(area, orient, ratio, gap);
            law_placed_inside(*first, x, gap);
            law_placed_inside(*second, y, gap);
            let a = first.place(x, gap);
            let b = second.place(y, gap);
            assert forall|i: int| 0 <= i < all.len() implies inside((#[trigger] all[i]).rect, area) by {
                if i < a.len() {
                    assert(all[i] == a[i]);
                } else {
                    assert(all[i] == b[i - a.len()]);
                }
            }
        },
    }
}

/// No two windows in sight are placed on one point.
pub proof fn law_visible_apart(t: Tree, area: Rect, gap: int)
    requires
        t.wf(),
        0 <= gap,
        on_grid(area),
    ensures
        forall|i: int, j: int|
            0 <= i < j < t.place(area, gap).len() && (#[trigger] t.place(area, gap)[i]).visible && (
            #[trigger] t.place(area, gap)[j]).visible ==> apart(
                t.place(area, gap)[i].rect,
                t.place(area, gap)[j].rect,
            ),
    decreases t,
{
    let all = t.place(area, gap);
    match t {
        Tree::Leaf { windows, selected, layout } => {
            assert forall|i: int, j: int|
                0 <= i < j < all.len() && (#[trigger] all[i]).visible && (
                #[trigger] all[j]).visible implies apart(all[i].rect, all[j].rect) by {
                lemma_cells_apart(layout, area, windows.len() as int, i, j, gap);
            }
        },
        Tree::Split { orient, ratio, selection, first, second } => {
            let (x, y) = cut(area, orient, ratio, gap);
            lemma_cut(area, orient, ratio, gap);
            law_placed_inside(*first, x, gap);
            law_placed_inside(*second, y, gap);
            law_visible_apart(*first, x, gap);
            law_visible_apart(*second, y, gap);
            let a = first.place(x, gap);
            let b = second.place(y, gap);
            assert forall|i: int, j: int|
                0 <= i < j < all.len() && (#[trigger] all[i]).visible && (
                #[trigger] all[j]).visible implies apart(all[i].rect, all[j].rect) by {
                if j < a.len() {
                    assert(all[i] == a[i] && all[j] == a[j]);
                } else if i >= a.len() {
                    assert(all[i] == b[i - a.len()] && all[j] == b[j - a.len()]);
                } else {
                    assert(all[i] == a[i] && all[j] == b[j - a.len()]);
                }
            }
        },
    }
}

} // verus!
