//! The frame tree as a mathematical value, and what each command makes of it.

use vstd::prelude::*;
use crate::double::{nudged, Double};
use crate::frame::{Dir, LayoutMode, Orientation, Placement, SplitDir, WinId};
use crate::monitor::{clip, quotient, Rect};
use crate::ratio::{rest_of_one, share, Ratio, HALF};

verus! {

/// A frame tree: a leaf with its stack of windows, or a split of two trees.
#[verifier::ext_equal]
pub ghost enum Tree {
    Leaf { windows: Seq<WinId>, selected: int, layout: LayoutMode },
    Split { orient: Orientation, ratio: Ratio, selection: int, first: Box<Tree>, second: Box<Tree> },
}

/// The leaf that holds nothing.
pub open spec fn bare_leaf(layout: LayoutMode) -> Tree {
    Tree::Leaf { windows: Seq::empty(), selected: 0, layout }
}

/// The first place of a window in a stack; its height where it is not there.
pub open spec fn place_of(windows: Seq<WinId>, w: WinId) -> int
    decreases windows.len(),
{
    if windows.len() == 0 || windows[0] == w {
        0
    } else {
        1 + place_of(windows.drop_first(), w)
    }
}

/// A selection held below the height of its stack.
pub open spec fn hold(selected: int, height: int) -> int {
    if selected < height {
        selected
    } else if height > 0 {
        height - 1
    } else {
        0
    }
}

impl Tree {
    /// Every selection names a window of its stack, or is zero on an empty one;
    /// every split selects one of its two children and keeps both in sight.
    pub open spec fn wf(self) -> bool
        decreases self,
    {
        match self {
            Tree::Leaf { windows, selected, layout } => {
                0 <= selected && (selected < windows.len() || (windows.len() == 0 && selected == 0))
            },
            Tree::Split { orient, ratio, selection, first, second } => {
                (selection == 0 || selection == 1) && ratio.wf() && first.wf() && second.wf()
            },
        }
    }

    /// All windows, leaf by leaf, the first child's before the second's.
    pub open spec fn windows(self) -> Seq<WinId>
        decreases self,
    {
        match self {
            Tree::Leaf { windows, .. } => windows,
            Tree::Split { first, second, .. } => first.windows() + second.windows(),
        }
    }

    /// The number of leaves.
    pub open spec fn leaves(self) -> nat
        decreases self,
    {
        match self {
            Tree::Leaf { .. } => 1,
            Tree::Split { first, second, .. } => first.leaves() + second.leaves(),
        }
    }

    /// The leaf that the selections lead to.
    pub open spec fn focused_leaf(self) -> Tree
        decreases self,
    {
        match self {
            Tree::Leaf { .. } => self,
            Tree::Split { selection, first, second, .. } => if selection == 0 {
                first.focused_leaf()
            } else {
                second.focused_leaf()
            },
        }
    }

    /// The number of leaves before the focused one.
    pub open spec fn focused_index(self) -> nat
        decreases self,
    {
        match self {
            Tree::Leaf { .. } => 0,
            Tree::Split { selection, first, second, .. } => if selection == 0 {
                first.focused_index()
            } else {
                first.leaves() + second.focused_index()
            },
        }
    }

    /// The selected window of the focused leaf.
    pub open spec fn focused_window(self) -> Option<WinId> {
        match self.focused_leaf() {
            Tree::Leaf { windows, selected, .. } => if 0 <= selected < windows.len() {
                Some(windows[selected])
            } else {
                None
            },
            _ => None,
        }
    }

    /// The tree with a window of it in the focused leaf, and focused: moved there from
    /// another leaf.
    pub open spec fn fetch(self, w: WinId) -> Tree {
        if self.windows().contains(w) && !self.focused_leaf().windows().contains(w) {
            self.remove(w).insert(w)
        } else {
            self.focus_on(w)
        }
    }

    /// The tree with its focused leaf replaced by what `f` makes of it.
    pub open spec fn map_focused(self, f: spec_fn(Tree) -> Tree) -> Tree
        decreases self,
    {
        match self {
            Tree::Leaf { .. } => f(self),
            Tree::Split { orient, ratio, selection, first, second } => if selection == 0 {
                Tree::Split { orient, ratio, selection, first: Box::new(first.map_focused(f)), second }
            } else {
                Tree::Split { orient, ratio, selection, first, second: Box::new(second.map_focused(f)) }
            },
        }
    }

    /// The tree with the selections leading to its `n`-th leaf.
    pub open spec fn focus_nth(self, n: int) -> Tree
        decreases self,
    {
        match self {
            Tree::Leaf { .. } => self,
            Tree::Split { orient, ratio, selection, first, second } => if n < first.leaves() {
                Tree::Split { orient, ratio, selection: 0, first: Box::new(first.focus_nth(n)), second }
            } else {
                Tree::Split {
                    orient,
                    ratio,
                    selection: 1,
                    first,
                    second: Box::new(second.focus_nth(n - first.leaves())),
                }
            },
        }
    }

    /// The tree with the window selected, where it holds it.
    pub open spec fn focus_on(self, w: WinId) -> Tree
        decreases self,
    {
        match self {
            Tree::Leaf { windows, selected, layout } => if windows.contains(w) {
                Tree::Leaf { windows, selected: place_of(windows, w), layout }
            } else {
                self
            },
            Tree::Split { orient, ratio, selection, first, second } => if first.windows().contains(w) {
                Tree::Split { orient, ratio, selection: 0, first: Box::new(first.focus_on(w)), second }
            } else if second.windows().contains(w) {
                Tree::Split { orient, ratio, selection: 1, first, second: Box::new(second.focus_on(w)) }
            } else {
                self
            },
        }
    }

    /// The tree with a window put after the selected one and selected.
    pub open spec fn insert(self, w: WinId) -> Tree {
        self.map_focused(|l: Tree| insert_in_leaf(l, w))
    }

    /// The tree without the first occurrence of the window; every selection stays
    /// where it is, or moves to the last window left.
    pub open spec fn remove(self, w: WinId) -> Tree
        decreases self,
    {
        match self {
            Tree::Leaf { windows, selected, layout } => if windows.contains(w) {
                Tree::Leaf {
                    windows: windows.remove(place_of(windows, w)),
                    selected: hold(selected, windows.len() - 1),
                    layout,
                }
            } else {
                self
            },
            Tree::Split { orient, ratio, selection, first, second } => if first.windows().contains(w) {
                Tree::Split { orient, ratio, selection, first: Box::new(first.remove(w)), second }
            } else {
                Tree::Split { orient, ratio, selection, first, second: Box::new(second.remove(w)) }
            },
        }
    }

    /// The tree with only those of its windows that are in `keep`.
    pub open spec fn retain(self, keep: Set<WinId>) -> Tree
        decreases self,
    {
        match self {
            Tree::Leaf { windows, selected, layout } => {
                let left = windows.filter(|w: WinId| keep.contains(w));
                Tree::Leaf { windows: left, selected: hold(selected, left.len() as int), layout }
            },
            Tree::Split { orient, ratio, selection, first, second } => Tree::Split {
                orient,
                ratio,
                selection,
                first: Box::new(first.retain(keep)),
                second: Box::new(second.retain(keep)),
            },
        }
    }

    /// The tree with its focused leaf taken out: the leaf's parent gives way to the
    /// leaf's sibling, and the sibling's focused leaf takes the windows over.
    pub open spec fn remove_frame(self) -> Tree
        decreases self,
    {
        match self {
            Tree::Leaf { .. } => self,
            Tree::Split { orient, ratio, selection, first, second } => if selection == 0 {
                if *first is Leaf {
                    second.map_focused(|l: Tree| append_to_leaf(l, first.windows()))
                } else {
                    Tree::Split { orient, ratio, selection, first: Box::new(first.remove_frame()), second }
                }
            } else {
                if *second is Leaf {
                    first.map_focused(|l: Tree| append_to_leaf(l, second.windows()))
                } else {
                    Tree::Split { orient, ratio, selection, first, second: Box::new(second.remove_frame()) }
                }
            },
        }
    }

    /// The tree with the border moved that lies nearest above the focused leaf on
    /// the axis of `dir`; none where there is no such border.
    pub open spec fn resize(self, dir: Dir, delta: Double) -> Option<Tree>
        decreases self,
    {
        match self {
            Tree::Leaf { .. } => None,
            Tree::Split { orient, ratio, selection, first, second } => {
                let inner = if selection == 0 {
                    first.resize(dir, delta)
                } else {
                    second.resize(dir, delta)
                };
                match inner {
                    Some(c) => Some(
                        if selection == 0 {
                            Tree::Split { orient, ratio, selection, first: Box::new(c), second }
                        } else {
                            Tree::Split { orient, ratio, selection, first, second: Box::new(c) }
                        },
                    ),
                    None => if (orient == Orientation::Horizontal) == is_horizontal(dir) {
                        let forward = dir == Dir::Right || dir == Dir::Down;
                        Some(
                            Tree::Split {
                                orient,
                                ratio: nudged(ratio, delta, forward != (selection == 0)),
                                selection,
                                first,
                                second,
                            },
                        )
                    } else {
                        None
                    },
                }
            },
        }
    }

    /// The placement of every window within `area`.
    pub open spec fn place(self, area: Rect, gap: int) -> Seq<Placement>
        decreases self,
    {
        match self {
            Tree::Leaf { windows, selected, layout } => place_leaf(windows, selected, layout, area, gap),
            Tree::Split { orient, ratio, selection, first, second } => {
                first.place(cut(area, orient, ratio, gap).0, gap) + second.place(
                    cut(area, orient, ratio, gap).1,
                    gap,
                )
            },
        }
    }

    /// The rectangle of every leaf within `area`.
    pub open spec fn leaf_rects(self, area: Rect, gap: int) -> Seq<Rect>
        decreases self,
    {
        match self {
            Tree::Leaf { .. } => seq![area],
            Tree::Split { orient, ratio, selection, first, second } => {
                first.leaf_rects(cut(area, orient, ratio, gap).0, gap) + second.leaf_rects(
                    cut(area, orient, ratio, gap).1,
                    gap,
                )
            },
        }
    }

    /// The leaf that lies next to the focused one in the direction.
    pub open spec fn neighbor(self, dir: Dir, area: Rect, gap: int) -> Option<int> {
        let rects = self.leaf_rects(area, gap);
        nearest_leaf(rects, self.focused_index() as int, dir, rects.len())
    }
}

/// Whether the direction is left or right.
pub open spec fn is_horizontal(dir: Dir) -> bool {
    dir == Dir::Left || dir == Dir::Right
}

/// A leaf with a window put after the selected one and selected.
pub open spec fn insert_in_leaf(l: Tree, w: WinId) -> Tree {
    match l {
        Tree::Leaf { windows, selected, layout } => {
            let at = if selected < windows.len() {
                selected + 1
            } else {
                windows.len() as int
            };
            Tree::Leaf { windows: windows.insert(at, w), selected: at, layout }
        },
        _ => l,
    }
}

/// A leaf with windows put on top of its stack.
pub open spec fn append_to_leaf(l: Tree, more: Seq<WinId>) -> Tree {
    match l {
        Tree::Leaf { windows, selected, layout } => Tree::Leaf { windows: windows + more, selected, layout },
        _ => l,
    }
}

/// A leaf with its selection moved `delta` places on, round its stack.
pub open spec fn cycle_leaf(l: Tree, delta: int) -> Tree {
    match l {
        Tree::Leaf { windows, selected, layout } => if windows.len() == 0 {
            l
        } else {
            Tree::Leaf { windows, selected: (selected + delta) % (windows.len() as int), layout }
        },
        _ => l,
    }
}

/// A leaf with another arrangement.
pub open spec fn arrange_leaf(l: Tree, mode: LayoutMode) -> Tree {
    match l {
        Tree::Leaf { windows, selected, layout } => Tree::Leaf { windows, selected, layout: mode },
        _ => l,
    }
}

/// The arrangement that follows in the round.
pub open spec fn next_layout(l: LayoutMode) -> LayoutMode {
    match l {
        LayoutMode::Vertical => LayoutMode::Horizontal,
        LayoutMode::Horizontal => LayoutMode::Max,
        LayoutMode::Max => LayoutMode::Grid,
        LayoutMode::Grid => LayoutMode::Vertical,
    }
}

/// A leaf with the arrangement that follows its own.
pub open spec fn advance_leaf(l: Tree) -> Tree {
    match l {
        Tree::Leaf { windows, selected, layout } => Tree::Leaf {
            windows,
            selected,
            layout: next_layout(layout),
        },
        _ => l,
    }
}

/// A leaf split in two. Towards a side, an empty leaf comes up on that side and
/// takes `fraction` of the room, and the leaf keeps the focus. Exploded, the leaf
/// keeps the selected window and its new sibling gets the others; a leaf of fewer
/// than two windows stays whole.
pub open spec fn split_leaf(l: Tree, dir: SplitDir, fraction: Ratio) -> Tree {
    let fresh = bare_leaf(LayoutMode::Vertical);
    match dir {
        SplitDir::Explode => match l {
            Tree::Leaf { windows, selected, layout } => if windows.len() < 2 {
                l
            } else {
                Tree::Split {
                    orient: Orientation::Horizontal,
                    ratio: Ratio { units: HALF },
                    selection: 0,
                    first: Box::new(Tree::Leaf { windows: seq![windows[selected]], selected: 0, layout }),
                    second: Box::new(Tree::Leaf { windows: windows.remove(selected), selected: 0, layout }),
                }
            },
            _ => l,
        },
        SplitDir::Left => Tree::Split {
            orient: Orientation::Horizontal,
            ratio: fraction,
            selection: 1,
            first: Box::new(fresh),
            second: Box::new(l),
        },
        SplitDir::Right => Tree::Split {
            orient: Orientation::Horizontal,
            ratio: rest_of_one(fraction),
            selection: 0,
            first: Box::new(l),
            second: Box::new(fresh),
        },
        SplitDir::Up => Tree::Split {
            orient: Orientation::Vertical,
            ratio: fraction,
            selection: 1,
            first: Box::new(fresh),
            second: Box::new(l),
        },
        SplitDir::Down => Tree::Split {
            orient: Orientation::Vertical,
            ratio: rest_of_one(fraction),
            selection: 0,
            first: Box::new(l),
            second: Box::new(fresh),
        },
    }
}

// --- geometry -------------------------------------------------------------------

/// What is left of a length once the gap is taken off.
pub open spec fn room(length: int, gap: int) -> int {
    clip(
        if length - gap > 0 {
            length - gap
        } else {
            0
        },
    ) as int
}

/// The two parts of an area that is split, with the gap between them.
pub open spec fn cut(area: Rect, orient: Orientation, ratio: Ratio, gap: int) -> (Rect, Rect) {
    match orient {
        Orientation::Horizontal => {
            let avail = room(area.w as int, gap);
            let w0 = share(avail as nat, ratio) as int;
            (
                Rect { x: area.x, y: area.y, w: w0 as i32, h: area.h },
                Rect { x: clip(area.x + w0 + gap), y: area.y, w: (avail - w0) as i32, h: area.h },
            )
        },
        Orientation::Vertical => {
            let avail = room(area.h as int, gap);
            let h0 = share(avail as nat, ratio) as int;
            (
                Rect { x: area.x, y: area.y, w: area.w, h: h0 as i32 },
                Rect { x: area.x, y: clip(area.y + h0 + gap), w: area.w, h: (avail - h0) as i32 },
            )
        },
    }
}

/// The `i`-th of `n` strips of equal height, one above the other.
pub open spec fn row_strip(area: Rect, n: int, i: int, gap: int) -> Rect {
    let h = quotient(area.h - (n - 1) * gap, n);
    Rect { x: area.x, y: clip(area.y + i * (h + gap)), w: area.w, h: clip(h) }
}

/// The `i`-th of `n` strips of equal width, side by side.
pub open spec fn column_strip(area: Rect, n: int, i: int, gap: int) -> Rect {
    let w = quotient(area.w - (n - 1) * gap, n);
    Rect { x: clip(area.x + i * (w + gap)), y: area.y, w: clip(w), h: area.h }
}

/// The least number from `c` on whose square is at least `n`.
pub open spec fn root_from(n: int, c: int) -> int
    decreases n - c,
{
    if c >= n || c * c >= n {
        c
    } else {
        root_from(n, c + 1)
    }
}

/// The number of columns of a grid of `n`: the square root, rounded up.
pub open spec fn grid_columns(n: int) -> int {
    root_from(n, 1)
}

/// The number of rows of a grid of `n`.
pub open spec fn grid_rows(n: int) -> int {
    (n + grid_columns(n) - 1) / grid_columns(n)
}

/// The cells in a row of a grid of `n`; the last row may be short.
pub open spec fn grid_cells(n: int, row: int) -> int {
    if row == grid_rows(n) - 1 && n % grid_columns(n) != 0 {
        n % grid_columns(n)
    } else {
        grid_columns(n)
    }
}

/// The `i`-th cell of a grid of `n`.
pub open spec fn grid_cell(area: Rect, n: int, i: int, gap: int) -> Rect {
    let col = i % grid_columns(n);
    let row = i / grid_columns(n);
    let cells = grid_cells(n, row);
    let w = quotient(area.w - (cells - 1) * gap, cells);
    let h = quotient(area.h - (grid_rows(n) - 1) * gap, grid_rows(n));
    Rect {
        x: clip(area.x + col * (w + gap)),
        y: clip(area.y + row * (h + gap)),
        w: clip(w),
        h: clip(h),
    }
}

/// Where the `i`-th of `n` windows of a leaf goes.
pub open spec fn cell(layout: LayoutMode, area: Rect, n: int, i: int, gap: int) -> Rect {
    match layout {
        LayoutMode::Max => area,
        LayoutMode::Vertical => row_strip(area, n, i, gap),
        LayoutMode::Horizontal => column_strip(area, n, i, gap),
        LayoutMode::Grid => grid_cell(area, n, i, gap),
    }
}

/// The placement of a leaf's windows; of a leaf of the `Max` kind only the selected
/// one is in sight.
pub open spec fn place_leaf(
    windows: Seq<WinId>,
    selected: int,
    layout: LayoutMode,
    area: Rect,
    gap: int,
) -> Seq<Placement> {
    Seq::new(
        windows.len(),
        |i: int|
            Placement {
                win: windows[i],
                rect: cell(layout, area, windows.len() as int, i, gap),
                visible: layout != LayoutMode::Max || i == selected,
            },
    )
}

/// The middle of a rectangle, across.
pub open spec fn middle_x(r: Rect) -> int {
    r.x + quotient(r.w as int, 2)
}

/// The middle of a rectangle, down.
pub open spec fn middle_y(r: Rect) -> int {
    r.y + quotient(r.h as int, 2)
}

/// Whether two stretches, each given by its start and its length, share a point.
pub open spec fn overlap(a: int, a_len: int, b: int, b_len: int) -> bool {
    a < b + b_len && b < a + a_len
}

/// Whether `r` lies from `from` in the direction: its middle does, and the two
/// overlap across it.
pub open spec fn lies_towards(from: Rect, r: Rect, dir: Dir) -> bool {
    match dir {
        Dir::Left => middle_x(r) < middle_x(from) && overlap(
            from.y as int,
            from.h as int,
            r.y as int,
            r.h as int,
        ),
        Dir::Right => middle_x(r) > middle_x(from) && overlap(
            from.y as int,
            from.h as int,
            r.y as int,
            r.h as int,
        ),
        Dir::Up => middle_y(r) < middle_y(from) && overlap(
            from.x as int,
            from.w as int,
            r.x as int,
            r.w as int,
        ),
        Dir::Down => middle_y(r) > middle_y(from) && overlap(
            from.x as int,
            from.w as int,
            r.x as int,
            r.w as int,
        ),
    }
}

/// The square of the distance of two middles.
pub open spec fn distance(a: Rect, b: Rect) -> int {
    (middle_x(b) - middle_x(a)) * (middle_x(b) - middle_x(a)) + (middle_y(b) - middle_y(a)) * (middle_y(
        b,
    ) - middle_y(a))
}

/// Of the first `n` rectangles, the one nearest to `rects[from]` of those that lie
/// in the direction; the earliest of several as near.
pub open spec fn nearest_leaf(rects: Seq<Rect>, from: int, dir: Dir, n: nat) -> Option<int>
    decreases n,
{
    if n == 0 {
        None
    } else {
        let i = n - 1;
        let best = nearest_leaf(rects, from, dir, i as nat);
        if i != from && lies_towards(rects[from], rects[i], dir) && (best is None || distance(
            rects[from],
            rects[i],
        ) < distance(rects[from], rects[best->0])) {
            Some(i)
        } else {
            best
        }
    }
}

} // verus!
