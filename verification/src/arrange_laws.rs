//! How windows are arranged: in which order and where in a leaf, in which leaf, and which
//! one follows which.

use vstd::prelude::*;
use crate::cmd_frame::{frame_on, window_on};
use crate::direction_laws::{just_above, just_left, leaf_at};
use crate::frame::{layout_named, LayoutMode, Orientation, SplitDir, WinId};
use crate::frame_laws::law_focus_nth;
use crate::monitor::{quotient, Rect};
use crate::place_laws::on_grid;
use crate::ratio::Ratio;
use crate::tree::{
    advance_leaf, cell, cut, cycle_leaf, grid_cells, grid_columns, grid_rows, place_of, root_from, split_leaf, Tree,
};

verus! {

// --- cells ------------------------------------------------------------------------------

/// The part of a length that each of `n` has that share it, with gaps between them.
proof fn lemma_part(len: int, n: int, gap: int)
    requires
        0 < n,
        0 <= gap,
        n <= len - (n - 1) * gap,
    ensures
        ({
            let h = quotient(len - (n - 1) * gap, n);
            &&& 1 <= h
            &&& n * h <= len - (n - 1) * gap < n * h + n
            &&& h <= len
        }),
{
    let a = len - (n - 1) * gap;
    let h = quotient(a, n);
    assert(h == a / n);
    assert(1 <= h && n * h <= a < n * h + n && h <= a) by (nonlinear_arith)
        requires
            h == a / n,
            n > 0,
            a >= n,
    ;
    assert((n - 1) * gap >= 0) by (nonlinear_arith)
        requires
            n > 0,
            gap >= 0,
    ;
}

proof fn lemma_at(len: int, n: int, i: int, gap: int)
    requires
        0 <= i < n,
        0 <= gap,
        n <= len - (n - 1) * gap,
    ensures
        ({
            let h = quotient(len - (n - 1) * gap, n);
            &&& 0 <= i * (h + gap)
            &&& i * (h + gap) + h <= len
            &&& (i + 1) * (h + gap) == i * (h + gap) + h + gap
        }),
{
    lemma_part(len, n, gap);
    let h = quotient(len - (n - 1) * gap, n);
    assert(0 <= i * (h + gap) <= (n - 1) * (h + gap)) by (nonlinear_arith)
        requires
            0 <= i < n,
            h >= 1,
            gap >= 0,
    ;
    assert((n - 1) * (h + gap) + h == n * h + (n - 1) * gap) by (nonlinear_arith);
    assert((i + 1) * (h + gap) == i * (h + gap) + h + gap) by (nonlinear_arith);
}

/// Windows that are arranged vertically fill the width and lie one above the other, the
/// first at the top, all of one height, down to less than a pixel for each from the bottom.
pub proof fn law_vertical(area: Rect, n: int, i: int, gap: int)
    requires
        0 <= i < n,
        0 <= gap,
        on_grid(area),
        n <= area.h - (n - 1) * gap,
    ensures
        ({
            let r = cell(LayoutMode::Vertical, area, n, i, gap);
            let first = cell(LayoutMode::Vertical, area, n, 0, gap);
            let last = cell(LayoutMode::Vertical, area, n, n - 1, gap);
            &&& r.x == area.x && r.w == area.w && r.h == first.h && 0 < r.h
            &&& first.y == area.y
            &&& i + 1 < n ==> just_above(r, cell(LayoutMode::Vertical, area, n, i + 1, gap), gap)
            &&& area.y + area.h - n < last.y + last.h <= area.y + area.h
        }),
{
    lemma_part(area.h as int, n, gap);
    lemma_at(area.h as int, n, i, gap);
    lemma_at(area.h as int, n, n - 1, gap);
    lemma_at(area.h as int, n, 0, gap);
    if i + 1 < n {
        lemma_at(area.h as int, n, i + 1, gap);
    }
    let h = quotient(area.h - (n - 1) * gap, n);
    assert((n - 1) * (h + gap) + h == n * h + (n - 1) * gap) by (nonlinear_arith);
    assert(0 * (h + gap) == 0);
}

/// Windows that are arranged horizontally fill the height and lie side by side, the first
/// at the left, all of one width, up to less than a pixel for each from the right.
pub proof fn law_horizontal(area: Rect, n: int, i: int, gap: int)
    requires
        0 <= i < n,
        0 <= gap,
        on_grid(area),
        n <= area.w - (n - 1) * gap,
    ensures
        ({
            let r = cell(LayoutMode::Horizontal, area, n, i, gap);
            let first = cell(LayoutMode::Horizontal, area, n, 0, gap);
            let last = cell(LayoutMode::Horizontal, area, n, n - 1, gap);
            &&& r.y == area.y && r.h == area.h && r.w == first.w && 0 < r.w
            &&& first.x == area.x
            &&& i + 1 < n ==> just_left(r, cell(LayoutMode::Horizontal, area, n, i + 1, gap), gap)
            &&& area.x + area.w - n < last.x + last.w <= area.x + area.w
        }),
{
    lemma_part(area.w as int, n, gap);
    lemma_at(area.w as int, n, i, gap);
    lemma_at(area.w as int, n, n - 1, gap);
    lemma_at(area.w as int, n, 0, gap);
    if i + 1 < n {
        lemma_at(area.w as int, n, i + 1, gap);
    }
    let h = quotient(area.w - (n - 1) * gap, n);
    assert((n - 1) * (h + gap) + h == n * h + (n - 1) * gap) by (nonlinear_arith);
    assert(0 * (h + gap) == 0);
}

/// A window that is arranged to the maximum fills the leaf.
pub proof fn law_max(area: Rect, n: int, i: int, gap: int)
    ensures
        cell(LayoutMode::Max, area, n, i, gap) == area,
{
}

proof fn lemma_columns(n: int, c: int)
    requires
        1 <= c,
        (c - 1) * (c - 1) < n,
        1 <= n,
    ensures
        ({
            let r = root_from(n, c);
            &&& c <= r
            &&& (r - 1) * (r - 1) < n <= r * r
        }),
    decreases n - c,
{
    if c >= n || c * c >= n {
        assert(n <= c * c) by (nonlinear_arith)
            requires
                c >= 1,
                c >= n || c * c >= n,
        ;
    } else {
        lemma_columns(n, c + 1);
    }
}

/// A grid of windows has as many columns as make it no wider than a square must be, and
/// as many rows as it takes; only the last row may hold fewer.
pub proof fn law_grid_shape(n: int)
    requires
        1 <= n,
    ensures
        ({
            let c = grid_columns(n);
            let rows = grid_rows(n);
            &&& 1 <= c
            &&& (c - 1) * (c - 1) < n <= c * c
            &&& (rows - 1) * c < n <= rows * c
            &&& forall|row: int| 0 <= row < rows - 1 ==> #[trigger] grid_cells(n, row) == c
            &&& grid_cells(n, rows - 1) == n - (rows - 1) * c
        }),
{
    lemma_columns(n, 1);
    let c = grid_columns(n);
    let rows = grid_rows(n);
    assert((rows - 1) * c < n <= rows * c) by (nonlinear_arith)
        requires
            c >= 1,
            n >= 1,
            rows == (n + c - 1) / c,
    ;
    let m = n - (rows - 1) * c;
    assert(rows * c == (rows - 1) * c + c) by (nonlinear_arith);
    if m == c {
        vstd::arithmetic::div_mod::lemma_fundamental_div_mod_converse(n, c, rows, 0);
    } else {
        vstd::arithmetic::div_mod::lemma_fundamental_div_mod_converse(n, c, rows - 1, m);
    }
}

/// Windows in a grid are read like lines: each lies right of the one before it in its row,
/// each row lies below the one before it, and each row starts at the left edge.
pub proof fn law_grid_order(area: Rect, n: int, i: int, gap: int)
    requires
        0 <= i < n,
        0 <= gap,
        on_grid(area),
        n <= area.w - (n - 1) * gap,
        n <= area.h - (n - 1) * gap,
    ensures
        ({
            let c = grid_columns(n);
            let r = cell(LayoutMode::Grid, area, n, i, gap);
            &&& 0 < r.w && 0 < r.h
            &&& i % c == 0 ==> r.x == area.x
            &&& i < c ==> r.y == area.y
            &&& i + 1 < n && (i + 1) % c != 0 ==> just_left(r, cell(LayoutMode::Grid, area, n, i + 1, gap), gap)
            &&& i + c < n ==> cell(LayoutMode::Grid, area, n, i + c, gap).y == r.y + r.h + gap
            &&& r.x + r.w <= area.x + area.w
            &&& r.y + r.h <= area.y + area.h
            &&& i + 1 == n || (i + 1) % c == 0 ==> area.x + area.w - c < r.x + r.w
            &&& i + c >= n && i / c + 1 == grid_rows(n) ==> area.y + area.h - grid_rows(n) < r.y + r.h
        }),
{
    law_grid_shape(n);
    let c = grid_columns(n);
    let rows = grid_rows(n);
    let row = i / c;
    let col = i % c;
    lemma_where(n, c, rows, i);
    let cells = grid_cells(n, row);
    assert(c <= n && rows <= n) by (nonlinear_arith)
        requires
            1 <= c,
            1 <= n,
            (c - 1) * (c - 1) < n,
            (rows - 1) * c < n,
    ;
    assert((cells - 1) * gap <= (n - 1) * gap && (rows - 1) * gap <= (n - 1) * gap) by (nonlinear_arith)
        requires
            cells <= n,
            rows <= n,
            gap >= 0,
    ;
    lemma_part(area.w as int, cells, gap);
    lemma_part(area.h as int, rows, gap);
    lemma_at(area.w as int, cells, col, gap);
    lemma_at(area.h as int, rows, row, gap);
    let w = quotient(area.w - (cells - 1) * gap, cells);
    let h = quotient(area.h - (rows - 1) * gap, rows);
    assert(0 * (w + gap) == 0 && 0 * (h + gap) == 0);
    if i < c {
        assert(row == 0) by (nonlinear_arith)
            requires
                0 <= i < c,
                row == i / c,
        ;
    }
    if i + 1 < n && (i + 1) % c != 0 {
        lemma_where(n, c, rows, i + 1);
        assert(col + 1 < c) by {
            if col + 1 == c {
                assert((row + 1) * c == row * c + c) by (nonlinear_arith);
                vstd::arithmetic::div_mod::lemma_fundamental_div_mod_converse(i + 1, c, row + 1, 0);
            }
        }
        vstd::arithmetic::div_mod::lemma_fundamental_div_mod_converse(i + 1, c, row, col + 1);
        lemma_at(area.w as int, cells, col + 1, gap);
    }
    if i + c < n {
        lemma_where(n, c, rows, i + c);
        assert((row + 1) * c == row * c + c) by (nonlinear_arith);
        vstd::arithmetic::div_mod::lemma_fundamental_div_mod_converse(i + c, c, row + 1, col);
        lemma_at(area.h as int, rows, row + 1, gap);
    }
    if i + 1 == n || (i + 1) % c == 0 {
        assert(col == cells - 1) by {
            if i + 1 == n {
                assert(row == rows - 1) by (nonlinear_arith)
                    requires
                        0 <= row < rows,
                        n == row * c + col + 1,
                        0 <= col < c,
                        (rows - 1) * c < n,
                ;
            } else {
                if col + 1 < c {
                    vstd::arithmetic::div_mod::lemma_fundamental_div_mod_converse(i + 1, c, row, col + 1);
                }
            }
        }
        assert((cells - 1) * (w + gap) + w == cells * w + (cells - 1) * gap) by (nonlinear_arith);
    }
    if row + 1 == rows {
        assert((rows - 1) * (h + gap) + h == rows * h + (rows - 1) * gap) by (nonlinear_arith);
    }
}

/// Where the `i`-th of `n` is in rows of `c`.
proof fn lemma_where(n: int, c: int, rows: int, i: int)
    requires
        1 <= c,
        0 <= i < n,
        c == grid_columns(n),
        rows == grid_rows(n),
    ensures
        i == (i / c) * c + i % c,
        0 <= i / c < rows,
        0 <= i % c < grid_cells(n, i / c) <= c,
        grid_cells(n, i / c) <= n,
{
    law_grid_shape(n);
    let row = i / c;
    let col = i % c;
    assert(i == row * c + col && 0 <= col < c && row >= 0) by (nonlinear_arith)
        requires
            c >= 1,
            i >= 0,
            col == i % c,
            row == i / c,
    ;
    assert(row < rows) by (nonlinear_arith)
        requires
            c >= 1,
            row * c <= i < n <= rows * c,
    ;
    assert(rows * c == (rows - 1) * c + c) by (nonlinear_arith);
    if row < rows - 1 {
        assert(c <= n) by (nonlinear_arith)
            requires
                1 <= c,
                1 <= row + 1 <= rows - 1,
                (rows - 1) * c < n,
        ;
    }
}

/// The words for an arrangement: `vertical` puts a window below the one before it, and
/// `horizontal` right of it.
pub proof fn law_layout_words(area: Rect, n: int, i: int, gap: int)
    requires
        0 <= i,
        i + 1 < n,
        0 <= gap,
        on_grid(area),
        n <= area.w - (n - 1) * gap,
        n <= area.h - (n - 1) * gap,
    ensures
        layout_named("vertical"@) matches Some(l) && just_above(
            cell(l, area, n, i, gap),
            cell(l, area, n, i + 1, gap),
            gap,
        ),
        layout_named("horizontal"@) matches Some(l) && just_left(
            cell(l, area, n, i, gap),
            cell(l, area, n, i + 1, gap),
            gap,
        ),
        layout_named("max"@) matches Some(l) && cell(l, area, n, i, gap) == area,
        layout_named("grid"@) matches Some(l) && cell(l, area, n, 0, gap).w * 2 <= area.w,
{
    reveal_strlit("vertical");
    reveal_strlit("horizontal");
    reveal_strlit("max");
    reveal_strlit("grid");
    assert("vertical"@.len() == 8 && "horizontal"@.len() == 10 && "max"@.len() == 3 && "grid"@.len() == 4);
    law_vertical(area, n, i, gap);
    law_horizontal(area, n, i, gap);
    law_grid_order(area, n, 0, gap);
    law_grid_order(area, n, 1, gap);
    law_grid_shape(n);
    let c = grid_columns(n);
    assert(c >= 2) by (nonlinear_arith)
        requires
            1 <= c,
            n <= c * c,
            n >= 2,
    ;
    vstd::arithmetic::div_mod::lemma_small_mod(1, c as nat);
    vstd::arithmetic::div_mod::lemma_small_mod(0, c as nat);
    vstd::arithmetic::div_mod::lemma_basic_div(1, c);
    vstd::arithmetic::div_mod::lemma_basic_div(0, c);
}

// --- leaves -----------------------------------------------------------------------------

/// How many windows there are in the first `n` leaves.
pub open spec fn windows_before(t: Tree, n: int) -> nat
    decreases n,
{
    if n <= 0 {
        0
    } else {
        windows_before(t, n - 1) + leaf_at(t, n - 1).windows().len()
    }
}

proof fn lemma_leaf_first(t: Tree, n: int)
    requires
        t is Split,
        0 <= n < t->first.leaves(),
    ensures
        leaf_at(t, n) == leaf_at(*t->first, n),
{
}

proof fn lemma_leaf_second(t: Tree, n: int)
    requires
        t is Split,
        t->first.leaves() <= n,
    ensures
        leaf_at(t, n) == leaf_at(*t->second, n - t->first.leaves()),
{
}

proof fn lemma_before_first(t: Tree, n: int)
    requires
        t is Split,
        0 <= n <= t->first.leaves(),
    ensures
        windows_before(t, n) == windows_before(*t->first, n),
    decreases n,
{
    if n > 0 {
        lemma_before_first(t, n - 1);
        lemma_leaf_first(t, n - 1);
    }
}

proof fn lemma_before_second(t: Tree, n: int)
    requires
        t is Split,
        t->first.leaves() <= n,
    ensures
        windows_before(t, n) == windows_before(*t->first, t->first.leaves() as int) + windows_before(
            *t->second,
            n - t->first.leaves(),
        ),
    decreases n,
{
    if n == t->first.leaves() {
        lemma_before_first(t, n);
    } else {
        lemma_before_second(t, n - 1);
        lemma_leaf_second(t, n - 1);
    }
}

proof fn lemma_before_all(t: Tree)
    ensures
        windows_before(t, t.leaves() as int) == t.windows().len(),
    decreases t,
{
    match t {
        Tree::Leaf { windows, .. } => {
            reveal_with_fuel(windows_before, 2);
            assert(leaf_at(t, 0) == t);
        },
        Tree::Split { first, second, .. } => {
            lemma_before_all(*first);
            lemma_before_all(*second);
            lemma_before_second(t, t.leaves() as int);
        },
    }
}

/// The windows of a leaf are placed where the leaf is: the `k`-th window of the `n`-th leaf
/// gets its cell of that leaf's rectangle.
pub proof fn law_placed_in_leaf(t: Tree, area: Rect, gap: int, n: int, k: int)
    requires
        0 <= n < t.leaves(),
        0 <= k < leaf_at(t, n).windows().len(),
    ensures
        ({
            let at = windows_before(t, n) + k;
            let l = leaf_at(t, n);
            let p = t.place(area, gap)[at];
            &&& 0 <= at < t.place(area, gap).len()
            &&& l is Leaf
            &&& p.win == l->windows[k]
            &&& p.rect == cell(l->layout, t.leaf_rects(area, gap)[n], l->windows.len() as int, k, gap)
            &&& p.visible == (l->layout != LayoutMode::Max || k == l->selected)
        }),
    decreases t,
{
    crate::frame_laws::law_place_all(t, area, gap);
    lemma_rects(t, area, gap);
    match t {
        Tree::Leaf { .. } => {
            reveal_with_fuel(windows_before, 1);
            assert(leaf_at(t, 0) == t);
        },
        Tree::Split { orient, ratio, selection, first, second } => {
            let (a, b) = cut(area, orient, ratio, gap);
            crate::frame_laws::law_place_all(*first, a, gap);
            crate::frame_laws::law_place_all(*second, b, gap);
            lemma_rects(*first, a, gap);
            lemma_rects(*second, b, gap);
            let pa = first.place(a, gap);
            let pb = second.place(b, gap);
            if n < first.leaves() {
                lemma_leaf_first(t, n);
                lemma_before_first(t, n);
                law_placed_in_leaf(*first, a, gap, n, k);
                assert((pa + pb)[windows_before(t, n) + k] == pa[windows_before(t, n) + k]);
            } else {
                let m = n - first.leaves();
                lemma_leaf_second(t, n);
                lemma_before_second(t, n);
                lemma_before_all(*first);
                law_placed_in_leaf(*second, b, gap, m, k);
                assert((pa + pb)[windows_before(t, n) + k] == pb[windows_before(*second, m) + k]);
            }
        },
    }
}

/// There is a rectangle for each leaf.
proof fn lemma_rects(t: Tree, area: Rect, gap: int)
    ensures
        t.leaf_rects(area, gap).len() == t.leaves(),
    decreases t,
{
    match t {
        Tree::Leaf { .. } => {},
        Tree::Split { orient, ratio, first, second, .. } => {
            lemma_rects(*first, cut(area, orient, ratio, gap).0, gap);
            lemma_rects(*second, cut(area, orient, ratio, gap).1, gap);
        },
    }
}

/// The leaf that the selections lead to is the one of the focused number.
pub proof fn law_focused_leaf(t: Tree)
    requires
        t.wf(),
    ensures
        t.focused_index() < t.leaves(),
        leaf_at(t, t.focused_index() as int) == t.focused_leaf(),
        t.focus_nth(t.focused_index() as int) == t,
    decreases t,
{
    match t {
        Tree::Leaf { .. } => {},
        Tree::Split { selection, first, second, .. } => {
            law_focused_leaf(*first);
            law_focused_leaf(*second);
        },
    }
}

/// Where a frame is taken out, the other part of its split takes the whole room of both,
/// and its focused leaf the windows, above its own. Other splits stay as they are.
pub proof fn law_room_freed(t: Tree, area: Rect, gap: int)
    requires
        t.wf(),
        t is Split,
    ensures
        ({
            let (part, other) = if t->selection == 0 {
                (*t->first, *t->second)
            } else {
                (*t->second, *t->first)
            };
            let u = t.remove_frame();
            &&& part is Leaf ==> {
                &&& u.leaf_rects(area, gap) == other.leaf_rects(area, gap)
                &&& u.focused_index() == other.focused_index()
                &&& u.focused_leaf().windows() == other.focused_leaf().windows() + part.windows()
                &&& other.focused_window() is Some ==> u.focused_window() == other.focused_window()
            }
            &&& part is Split ==> {
                &&& u is Split
                &&& u->orient == t->orient && u->ratio == t->ratio && u->selection == t->selection
                &&& (t->selection == 0 ==> u->second == t->second && *u->first == part.remove_frame())
                &&& (t->selection == 1 ==> u->first == t->first && *u->second == part.remove_frame())
            }
        }),
{
    let (part, other) = if t->selection == 0 {
        (*t->first, *t->second)
    } else {
        (*t->second, *t->first)
    };
    lemma_append_in_place(other, part.windows(), area, gap);
}

proof fn lemma_append_in_place(t: Tree, more: Seq<WinId>, area: Rect, gap: int)
    requires
        t.wf(),
    ensures
        ({
            let u = t.map_focused(|l: Tree| crate::tree::append_to_leaf(l, more));
            &&& u.leaf_rects(area, gap) == t.leaf_rects(area, gap)
            &&& u.focused_index() == t.focused_index()
            &&& u.leaves() == t.leaves()
            &&& u.focused_leaf().windows() == t.focused_leaf().windows() + more
            &&& t.focused_window() is Some ==> u.focused_window() == t.focused_window()
        }),
    decreases t,
{
    match t {
        Tree::Leaf { .. } => {},
        Tree::Split { orient, ratio, selection, first, second } => {
            let (a, b) = cut(area, orient, ratio, gap);
            lemma_append_in_place(*first, more, a, gap);
            lemma_append_in_place(*second, more, b, gap);
        },
    }
}

/// Exploded, a leaf keeps its selected window, at the left and in focus, and the others
/// follow in a leaf of the same arrangement at the right, in their order.
pub proof fn law_explode(windows: Seq<WinId>, selected: int, layout: LayoutMode, r: crate::ratio::Ratio)
    requires
        0 <= selected < windows.len(),
        2 <= windows.len(),
    ensures
        ({
            let u = split_leaf(Tree::Leaf { windows, selected, layout }, crate::frame::SplitDir::Explode, r);
            &&& u is Split
            &&& u->orient == Orientation::Horizontal
            &&& 2 * u->ratio.units == crate::ratio::ONE
            &&& u.leaves() == 2
            &&& u.focused_index() == 0
            &&& u.focused_window() == Some(windows[selected])
            &&& leaf_at(u, 0) == (Tree::Leaf { windows: seq![windows[selected]], selected: 0, layout })
            &&& leaf_at(u, 1).windows() == windows.take(selected) + windows.skip(selected + 1)
            &&& leaf_at(u, 1)->layout == layout
        }),
{
    reveal_with_fuel(Tree::leaves, 2);
    reveal_with_fuel(Tree::focus_nth, 2);
    reveal_with_fuel(Tree::focused_leaf, 2);
    reveal_with_fuel(Tree::focused_index, 2);
    assert(windows.remove(selected) =~= windows.take(selected) + windows.skip(selected + 1));
}

// --- windows in order -------------------------------------------------------------------

/// A new window comes right behind the one that had the focus, in its leaf.
pub proof fn law_inserted_behind(t: Tree, w: WinId)
    requires
        t.wf(),
    ensures
        ({
            let l = t.focused_leaf();
            let v = t.insert(w).focused_leaf();
            &&& v is Leaf && l is Leaf
            &&& v->layout == l->layout
            &&& l->windows.len() == 0 ==> v->windows == seq![w]
            &&& l->windows.len() > 0 ==> v->windows == l->windows.take(l->selected + 1) + seq![w] + l->windows.skip(
                l->selected + 1,
            )
        }),
    decreases t,
{
    match t {
        Tree::Leaf { windows, selected, .. } => {
            if windows.len() == 0 {
                assert(windows.insert(0, w) =~= seq![w]);
            } else {
                assert(windows.insert(selected + 1, w) =~= windows.take(selected + 1) + seq![w] + windows.skip(
                    selected + 1,
                ));
            }
        },
        Tree::Split { selection, first, second, .. } => {
            if selection == 0 {
                law_inserted_behind(*first, w);
            } else {
                law_inserted_behind(*second, w);
            }
        },
    }
}

/// The window that closes hands the focus to the one behind it, or to the last.
pub proof fn law_focus_after_close(windows: Seq<WinId>, selected: int, layout: LayoutMode)
    requires
        0 <= selected < windows.len(),
        windows.no_duplicates(),
    ensures
        ({
            let u = (Tree::Leaf { windows, selected, layout }).remove(windows[selected]);
            &&& selected + 1 < windows.len() ==> u.focused_window() == Some(windows[selected + 1])
            &&& 0 < selected && selected + 1 == windows.len() ==> u.focused_window() == Some(windows[selected - 1])
            &&& windows.len() == 1 ==> u.focused_window() is None
            &&& u->layout == layout
        }),
{
    lemma_place(windows, selected);
}

proof fn lemma_place(windows: Seq<WinId>, i: int)
    requires
        0 <= i < windows.len(),
        windows.no_duplicates(),
    ensures
        place_of(windows, windows[i]) == i,
    decreases windows.len(),
{
    if i > 0 {
        assert(windows[0] != windows[i]);
        assert(windows.drop_first()[i - 1] == windows[i]);
        assert(windows.drop_first().no_duplicates()) by {
            assert forall|a: int, b: int|
                0 <= a < windows.drop_first().len() && 0 <= b < windows.drop_first().len() && a
                    != b implies windows.drop_first()[a] != windows.drop_first()[b] by {
                assert(windows[a + 1] != windows[b + 1]);
            }
        }
        lemma_place(windows.drop_first(), i - 1);
    }
}

/// One step on in a leaf leads to the window behind, from the last to the first; steps add
/// up.
pub proof fn law_cycle_on(windows: Seq<WinId>, selected: int, layout: LayoutMode, n: int, m: int)
    requires
        0 <= selected < windows.len(),
    ensures
        ({
            let l = Tree::Leaf { windows, selected, layout };
            &&& selected + 1 < windows.len() ==> cycle_leaf(l, 1).focused_window() == Some(windows[selected + 1])
            &&& selected + 1 == windows.len() ==> cycle_leaf(l, 1).focused_window() == Some(windows[0])
            &&& 0 < selected ==> cycle_leaf(l, -1).focused_window() == Some(windows[selected - 1])
            &&& cycle_leaf(cycle_leaf(l, n), m) == cycle_leaf(l, n + m)
            &&& cycle_leaf(l, 0) == l
            &&& cycle_leaf(l, n).windows() == windows
            &&& cycle_leaf(l, n)->layout == layout
        }),
{
    let k = windows.len() as int;
    vstd::arithmetic::div_mod::lemma_small_mod(selected as nat, k as nat);
    if selected + 1 < k {
        vstd::arithmetic::div_mod::lemma_small_mod((selected + 1) as nat, k as nat);
    } else {
        vstd::arithmetic::div_mod::lemma_mod_self_0(k);
    }
    if 0 < selected {
        vstd::arithmetic::div_mod::lemma_small_mod((selected - 1) as nat, k as nat);
    }
    vstd::arithmetic::div_mod::lemma_add_mod_noop_right(m, selected + n, k);
    assert((m + (selected + n) % k) % k == (m + (selected + n)) % k);
}

/// One step on round all windows of a tag leads to the one behind, from the last to the
/// first.
pub proof fn law_cycle_all_on(t: Tree, i: int)
    requires
        t.wf(),
        0 <= i < t.windows().len(),
        t.windows().no_duplicates(),
        t.focused_window() == Some(t.windows()[i]),
    ensures
        i + 1 < t.windows().len() ==> window_on(t, 1) == t.windows()[i + 1],
        i + 1 == t.windows().len() ==> window_on(t, 1) == t.windows()[0],
        0 < i ==> window_on(t, -1) == t.windows()[i - 1],
        window_on(t, 0) == t.windows()[i],
{
    lemma_place(t.windows(), i);
    let k = t.windows().len() as int;
    vstd::arithmetic::div_mod::lemma_small_mod(i as nat, k as nat);
    if i + 1 < k {
        vstd::arithmetic::div_mod::lemma_small_mod((i + 1) as nat, k as nat);
    } else {
        vstd::arithmetic::div_mod::lemma_mod_self_0(k);
    }
    if 0 < i {
        vstd::arithmetic::div_mod::lemma_small_mod((i - 1) as nat, k as nat);
    }
}

/// One step on round the leaves leads to the leaf behind, from the last to the first.
pub proof fn law_cycle_frame_on(t: Tree)
    requires
        t.wf(),
    ensures
        t.focused_index() + 1 < t.leaves() ==> frame_on(t, 1).focused_index() == t.focused_index() + 1,
        t.focused_index() + 1 == t.leaves() ==> frame_on(t, 1).focused_index() == 0,
        0 < t.focused_index() ==> frame_on(t, -1).focused_index() == t.focused_index() - 1,
        frame_on(t, 1).windows() == t.windows(),
{
    law_focused_leaf(t);
    let k = t.leaves() as int;
    let i = t.focused_index() as int;
    vstd::arithmetic::div_mod::lemma_small_mod(i as nat, k as nat);
    if i + 1 < k {
        vstd::arithmetic::div_mod::lemma_small_mod((i + 1) as nat, k as nat);
        law_focus_nth(t, i + 1);
    } else {
        vstd::arithmetic::div_mod::lemma_mod_self_0(k);
        law_focus_nth(t, 0);
    }
    if 0 < i {
        vstd::arithmetic::div_mod::lemma_small_mod((i - 1) as nat, k as nat);
        law_focus_nth(t, i - 1);
    }
}

/// The arrangements follow each other in one round: rows, columns, one at a time, a grid.
pub proof fn law_layout_order(t: Tree)
    ensures
        t.focused_leaf()->layout == LayoutMode::Vertical ==> t.map_focused(|l: Tree| advance_leaf(l)).focused_leaf()->layout
            == LayoutMode::Horizontal,
        t.focused_leaf()->layout == LayoutMode::Horizontal ==> t.map_focused(|l: Tree| advance_leaf(l)).focused_leaf()->layout
            == LayoutMode::Max,
        t.focused_leaf()->layout == LayoutMode::Max ==> t.map_focused(|l: Tree| advance_leaf(l)).focused_leaf()->layout
            == LayoutMode::Grid,
        t.focused_leaf()->layout == LayoutMode::Grid ==> t.map_focused(|l: Tree| advance_leaf(l)).focused_leaf()->layout
            == LayoutMode::Vertical,
    decreases t,
{
    if let Tree::Split { selection, first, second, .. } = t {
        if selection == 0 {
            law_layout_order(*first);
        } else {
            law_layout_order(*second);
        }
    }
}

/// A frame that comes up by a split is empty and has its windows one above the other; the
/// frame that was split keeps all that it had.
pub proof fn law_fresh_frame(l: Tree, dir: SplitDir, fraction: Ratio)
    requires
        dir != SplitDir::Explode,
    ensures
        ({
            let s = split_leaf(l, dir, fraction);
            let old = if s->selection == 0 {
                *s->first
            } else {
                *s->second
            };
            let fresh = if s->selection == 0 {
                *s->second
            } else {
                *s->first
            };
            &&& s is Split
            &&& old == l
            &&& fresh is Leaf && fresh.windows().len() == 0 && fresh->layout == LayoutMode::Vertical
        }),
{
}

/// Frames that are held to some windows keep those, in their order, and lose all others; the
/// frames stay, and the selected place with them where it is still taken.
pub proof fn law_retained(t: Tree, keep: Set<WinId>)
    requires
        t.wf(),
    ensures
        t.retain(keep).windows() == t.windows().filter(|w: WinId| keep.contains(w)),
        t.retain(keep).leaves() == t.leaves(),
        t.retain(keep).focused_index() == t.focused_index(),
        t.retain(keep).wf(),
        t.focused_leaf()->selected < t.retain(keep).focused_leaf().windows().len() ==> t.retain(keep).focused_leaf()->selected
            == t.focused_leaf()->selected,
        t.focused_leaf()->selected >= t.retain(keep).focused_leaf().windows().len() > 0 ==> t.retain(
            keep,
        ).focused_leaf()->selected == t.retain(keep).focused_leaf().windows().len() - 1,
    decreases t,
{
    let p = |w: WinId| keep.contains(w);
    match t {
        Tree::Leaf { windows, selected, layout } => {
            assert(t.retain(keep).windows() == windows.filter(p));
        },
        Tree::Split { first, second, selection, .. } => {
            law_retained(*first, keep);
            law_retained(*second, keep);
            lemma_filter_split(first.windows(), second.windows(), p);
        },
    }
}

proof fn lemma_filter_split(a: Seq<WinId>, b: Seq<WinId>, p: spec_fn(WinId) -> bool)
    ensures
        (a + b).filter(p) == a.filter(p) + b.filter(p),
    decreases b.len(),
{
    reveal(Seq::filter);
    if b.len() == 0 {
        assert(a + b =~= a);
        assert(a.filter(p) + b.filter(p) =~= a.filter(p));
    } else {
        lemma_filter_split(a, b.drop_last(), p);
        assert((a + b).drop_last() =~= a + b.drop_last());
        assert((a + b).filter(p) =~= a.filter(p) + b.filter(p));
    }
}

} // verus!
