//! The frame tree: the layout of one tag.

use vstd::prelude::*;
use crate::double::Double;
use crate::monitor::{clip, clip_to, divide, quotient, step_round, Rect};
use crate::ratio::{Ratio, HALF};
use crate::text::same;
use std::collections::HashSet;
use vstd::std_specs::hash::*;
use crate::tree::{
    advance_leaf, append_to_leaf, arrange_leaf, bare_leaf, cell, cut, cycle_leaf, distance,
    grid_cell, grid_columns, is_horizontal, lies_towards, middle_x, middle_y, nearest_leaf,
    next_layout, overlap, place_leaf, place_of, room, root_from, split_leaf, Tree,
};

verus! {

/// A window's number.
pub type WinId = u64;

/// How a split lays out its two children.
#[derive(Clone, Copy, Debug, PartialEq, Eq, Structural)]
pub enum Orientation {
    /// Side by side.
    Horizontal,
    /// One above the other.
    Vertical,
}

/// How a leaf arranges its windows.
#[derive(Clone, Copy, Debug, PartialEq, Eq, Structural)]
pub enum LayoutMode {
    /// Each window fills the leaf, and the selected one is seen.
    Max,
    /// One above the other.
    Vertical,
    /// Side by side.
    Horizontal,
    /// In rows and columns.
    Grid,
}

/// The arrangement of the given name.
pub open spec fn layout_named(s: Seq<char>) -> Option<LayoutMode> {
    if s == "max"@ {
        Some(LayoutMode::Max)
    } else if s == "vertical"@ {
        Some(LayoutMode::Vertical)
    } else if s == "horizontal"@ {
        Some(LayoutMode::Horizontal)
    } else if s == "grid"@ {
        Some(LayoutMode::Grid)
    } else {
        None
    }
}

impl LayoutMode {
    /// The arrangement of the given name.
    pub fn parse(s: &str) -> (r: Option<LayoutMode>)
        ensures
            r == layout_named(s@),
    {
        if same(s, "max") {
            Some(LayoutMode::Max)
        } else if same(s, "vertical") {
            Some(LayoutMode::Vertical)
        } else if same(s, "horizontal") {
            Some(LayoutMode::Horizontal)
        } else if same(s, "grid") {
            Some(LayoutMode::Grid)
        } else {
            None
        }
    }

    /// The arrangement that follows in the round.
    pub fn next(self) -> (r: LayoutMode)
        ensures
            r == next_layout(self),
    {
        match self {
            LayoutMode::Vertical => LayoutMode::Horizontal,
            LayoutMode::Horizontal => LayoutMode::Max,
            LayoutMode::Max => LayoutMode::Grid,
            LayoutMode::Grid => LayoutMode::Vertical,
        }
    }
}

/// A side to look, move or grow towards.
#[derive(Clone, Copy, Debug, PartialEq, Eq, Structural)]
pub enum Dir {
    Left,
    Right,
    Up,
    Down,
}

/// The side of the given name.
pub open spec fn dir_named(s: Seq<char>) -> Option<Dir> {
    if s == "left"@ {
        Some(Dir::Left)
    } else if s == "right"@ {
        Some(Dir::Right)
    } else if s == "up"@ {
        Some(Dir::Up)
    } else if s == "down"@ {
        Some(Dir::Down)
    } else {
        None
    }
}

impl Dir {
    /// The side of the given name.
    pub fn parse(s: &str) -> (r: Option<Dir>)
        ensures
            r == dir_named(s@),
    {
        if same(s, "left") {
            Some(Dir::Left)
        } else if same(s, "right") {
            Some(Dir::Right)
        } else if same(s, "up") {
            Some(Dir::Up)
        } else if same(s, "down") {
            Some(Dir::Down)
        } else {
            None
        }
    }

    /// Whether the side is left or right.
    pub fn horizontal(self) -> (r: bool)
        ensures
            r == is_horizontal(self),
    {
        self == Dir::Left || self == Dir::Right
    }
}

/// How to split the focused leaf.
#[derive(Clone, Copy, Debug, PartialEq, Eq, Structural)]
pub enum SplitDir {
    Left,
    Right,
    Up,
    Down,
    /// Spread the leaf's windows over the two parts.
    Explode,
}

/// The way to split of the given name.
pub open spec fn split_named(s: Seq<char>) -> Option<SplitDir> {
    if s == "left"@ {
        Some(SplitDir::Left)
    } else if s == "right"@ || s == "horizontal"@ {
        Some(SplitDir::Right)
    } else if s == "top"@ || s == "up"@ {
        Some(SplitDir::Up)
    } else if s == "bottom"@ || s == "down"@ || s == "vertical"@ {
        Some(SplitDir::Down)
    } else if s == "explode"@ {
        Some(SplitDir::Explode)
    } else {
        None
    }
}

impl SplitDir {
    /// The way to split of the given name.
    pub fn parse(s: &str) -> (r: Option<SplitDir>)
        ensures
            r == split_named(s@),
    {
        if same(s, "left") {
            Some(SplitDir::Left)
        } else if same(s, "right") || same(s, "horizontal") {
            Some(SplitDir::Right)
        } else if same(s, "top") || same(s, "up") {
            Some(SplitDir::Up)
        } else if same(s, "bottom") || same(s, "down") || same(s, "vertical") {
            Some(SplitDir::Down)
        } else if same(s, "explode") {
            Some(SplitDir::Explode)
        } else {
            None
        }
    }
}

/// A leaf: a stack of windows with one of them selected, and their arrangement.
#[derive(Debug)]
pub struct Leaf {
    pub windows: Vec<WinId>,
    pub selected: usize,
    pub layout: LayoutMode,
}

/// A split: two trees that share an area.
#[derive(Debug)]
pub struct Split {
    pub orient: Orientation,
    /// The first child's share of the area.
    pub ratio: Ratio,
    /// The child, zero or one, that the focus goes to.
    pub selection: usize,
    pub first: Box<Frame>,
    pub second: Box<Frame>,
}

/// A node of the frame tree.
#[derive(Debug)]
pub enum Frame {
    Leaf(Leaf),
    Split(Split),
}

/// Where a window goes.
#[derive(Clone, Copy, Debug, PartialEq, Eq, Structural)]
pub struct Placement {
    pub win: WinId,
    pub rect: Rect,
    /// False for a window that others of its leaf cover.
    pub visible: bool,
}

impl Frame {
    /// The tree that the frame stands for.
    pub open spec fn view(&self) -> Tree
        decreases self,
    {
        match self {
            Frame::Leaf(l) => Tree::Leaf {
                windows: l.windows@,
                selected: l.selected as int,
                layout: l.layout,
            },
            Frame::Split(s) => Tree::Split {
                orient: s.orient,
                ratio: s.ratio,
                selection: s.selection as int,
                first: Box::new(s.first.view()),
                second: Box::new(s.second.view()),
            },
        }
    }
}

/// The first place of a window in a stack.
pub fn find_window(v: &Vec<WinId>, w: WinId) -> (r: usize)
    ensures
        r == place_of(v@, w),
        r <= v@.len(),
        r < v@.len() <==> v@.contains(w),
        r < v@.len() ==> v@[r as int] == w,
{
    let mut i: usize = 0;
    assert(v@.skip(0) =~= v@);
    while i < v.len() && v[i] != w
        invariant
            i <= v@.len(),
            i + place_of(v@.skip(i as int), w) == place_of(v@, w),
            forall|j: int| 0 <= j < i ==> #[trigger] v@[j] != w,
        decreases v@.len() - i,
    {
        assert(v@.skip(i as int).drop_first() =~= v@.skip(i + 1));
        i += 1;
    }
    i
}

impl Frame {
    /// A tree of one empty leaf.
    pub fn new() -> (r: Frame)
        ensures
            r@ == bare_leaf(LayoutMode::Vertical),
            r@.wf(),
    {
        Frame::with_layout(LayoutMode::Vertical)
    }

    /// A tree of one empty leaf, arranged as given.
    pub fn with_layout(layout: LayoutMode) -> (r: Frame)
        ensures
            r@ == bare_leaf(layout),
            r@.wf(),
    {
        Frame::Leaf(Leaf { windows: Vec::new(), selected: 0, layout })
    }

    /// Whether the tree is one leaf without windows.
    pub fn is_empty(&self) -> (r: bool)
        ensures
            r == (self@ is Leaf && self@.windows().len() == 0),
    {
        match self {
            Frame::Leaf(l) => l.windows.len() == 0,
            Frame::Split(_) => false,
        }
    }

    /// Whether the tree is one leaf.
    pub fn is_single_leaf(&self) -> (r: bool)
        ensures
            r == (self@ is Leaf),
    {
        match self {
            Frame::Leaf(_) => true,
            Frame::Split(_) => false,
        }
    }

    /// The window that has the focus.
    pub fn focused_window(&self) -> (r: Option<WinId>)
        ensures
            r == self@.focused_window(),
        decreases self@,
    {
        match self {
            Frame::Leaf(l) => if l.selected < l.windows.len() {
                Some(l.windows[l.selected])
            } else {
                None
            },
            Frame::Split(s) => if s.selection == 0 {
                s.first.focused_window()
            } else {
                s.second.focused_window()
            },
        }
    }

    /// Puts a window after the selected one of the focused leaf and selects it.
    pub fn insert_window(&mut self, w: WinId)
        requires
            old(self)@.wf(),
        ensures
            final(self)@ == old(self)@.insert(w),
            final(self)@.wf(),
        decreases old(self)@,
    {
        match self {
            Frame::Leaf(l) => {
                let at: usize = if l.selected < l.windows.len() {
                    l.selected + 1
                } else {
                    l.windows.len()
                };
                l.windows.insert(at, w);
                l.selected = at;
            },
            Frame::Split(s) => if s.selection == 0 {
                s.first.insert_window(w);
            } else {
                s.second.insert_window(w);
            },
        }
    }

    /// Takes a window out of the tree; says whether it was there. An emptied leaf
    /// stays.
    pub fn remove_window(&mut self, w: WinId) -> (r: bool)
        requires
            old(self)@.wf(),
        ensures
            r == old(self)@.windows().contains(w),
            final(self)@ == old(self)@.remove(w),
            final(self)@.wf(),
        decreases old(self)@,
    {
        match self {
            Frame::Leaf(l) => {
                let i: usize = find_window(&l.windows, w);
                if i < l.windows.len() {
                    l.windows.remove(i);
                    if l.selected >= l.windows.len() {
                        l.selected = if l.windows.len() > 0 { l.windows.len() - 1 } else { 0 };
                    }
                    true
                } else {
                    false
                }
            },
            Frame::Split(s) => {
                proof {
                    lemma_contains_concat(s.first@.windows(), s.second@.windows(), w);
                }
                let in_first: bool = s.first.remove_window(w);
                if in_first {
                    true
                } else {
                    proof {
                        lemma_remove_absent(old(self)@->first, w);
                    }
                    s.second.remove_window(w)
                }
            },
        }
    }
}

proof fn lemma_contains_concat(a: Seq<WinId>, b: Seq<WinId>, w: WinId)
    ensures
        (a + b).contains(w) <==> a.contains(w) || b.contains(w),
{
    if a.contains(w) {
        let i = choose|i: int| 0 <= i < a.len() && a[i] == w;
        assert((a + b)[i] == w);
    }
    if b.contains(w) {
        let i = choose|i: int| 0 <= i < b.len() && b[i] == w;
        assert((a + b)[a.len() + i] == w);
    }
}

proof fn lemma_remove_absent(t: Box<Tree>, w: WinId)
    requires
        !t.windows().contains(w),
    ensures
        t.remove(w) == *t,
    decreases t,
{
    match *t {
        Tree::Leaf { .. } => {},
        Tree::Split { first, second, .. } => {
            lemma_contains_concat(first.windows(), second.windows(), w);
            lemma_remove_absent(second, w);
        },
    }
}


proof fn lemma_place_of(v: Seq<WinId>, w: WinId)
    ensures
        0 <= place_of(v, w) <= v.len(),
        place_of(v, w) < v.len() <==> v.contains(w),
        place_of(v, w) < v.len() ==> v[place_of(v, w)] == w,
    decreases v.len(),
{
    if v.len() > 0 && v[0] != w {
        lemma_place_of(v.drop_first(), w);
        if v.contains(w) {
            let i = choose|i: int| 0 <= i < v.len() && v[i] == w;
            assert(v.drop_first()[i - 1] == w);
        }
    }
}

proof fn lemma_focus_on_absent(t: Box<Tree>, w: WinId)
    requires
        !t.windows().contains(w),
    ensures
        t.focus_on(w) == *t,
{
    match *t {
        Tree::Leaf { .. } => {},
        Tree::Split { first, second, .. } => {
            lemma_contains_concat(first.windows(), second.windows(), w);
        },
    }
}

/// For each leaf, the first child's before the second's, whether it is the focused
/// one of a tree that has the focus.
spec fn marks(t: Tree, on: bool) -> Seq<bool>
    decreases t,
{
    match t {
        Tree::Leaf { .. } => seq![on],
        Tree::Split { selection, first, second, .. } => marks(*first, on && selection == 0) + marks(
            *second,
            on && selection != 0,
        ),
    }
}

proof fn lemma_marks(t: Tree, on: bool)
    ensures
        marks(t, on).len() == t.leaves(),
        t.leaves() > 0,
        t.focused_index() < t.leaves(),
        forall|i: int|
            0 <= i < t.leaves() ==> #[trigger] marks(t, on)[i] == (on && i == t.focused_index()),
    decreases t,
{
    match t {
        Tree::Leaf { .. } => {},
        Tree::Split { selection, first, second, .. } => {
            lemma_marks(*first, on && selection == 0);
            lemma_marks(*second, on && selection != 0);
            let a = marks(*first, on && selection == 0);
            let b = marks(*second, on && selection != 0);
            assert forall|i: int| 0 <= i < t.leaves() implies #[trigger] marks(t, on)[i] == (on && i
                == t.focused_index()) by {
                if i < a.len() {
                    assert((a + b)[i] == a[i]);
                } else {
                    assert((a + b)[i] == b[i - a.len()]);
                }
            }
        },
    }
}

impl Frame {
    /// Every window, leaf by leaf.
    pub fn all_windows(&self) -> (r: Vec<WinId>)
        ensures
            r@ == self@.windows(),
    {
        let mut v: Vec<WinId> = Vec::new();
        self.collect_windows(&mut v);
        assert(Seq::<WinId>::empty() + self@.windows() =~= self@.windows());
        v
    }

    fn collect_windows(&self, out: &mut Vec<WinId>)
        ensures
            final(out)@ == old(out)@ + self@.windows(),
        decreases self,
    {
        match self {
            Frame::Leaf(l) => {
                out.extend_from_slice(l.windows.as_slice());
                assert(out@ =~= old(out)@ + l.windows@);
            },
            Frame::Split(s) => {
                s.first.collect_windows(out);
                s.second.collect_windows(out);
                assert(out@ =~= old(out)@ + self@.windows());
            },
        }
    }

    /// Whether the focused leaf holds a window.
    fn in_focused_leaf(&self, w: WinId) -> (r: bool)
        ensures
            r == self@.focused_leaf().windows().contains(w),
        decreases self@,
    {
        match self {
            Frame::Leaf(l) => {
                let i: usize = find_window(&l.windows, w);
                proof {
                    lemma_place_of(l.windows@, w);
                }
                i < l.windows.len()
            },
            Frame::Split(s) => if s.selection == 0 {
                s.first.in_focused_leaf(w)
            } else {
                s.second.in_focused_leaf(w)
            },
        }
    }

    /// Moves a window of the tree into the focused leaf, unless it is there, and focuses
    /// it.
    pub fn fetch_window(&mut self, w: WinId)
        requires
            old(self)@.wf(),
        ensures
            final(self)@ == old(self)@.fetch(w),
            final(self)@.wf(),
    {
        proof {
            crate::frame_laws::law_remove(self@, w);
            crate::frame_laws::law_focus_window(self@, w);
        }
        if self.in_focused_leaf(w) {
            self.focus_window(w);
        } else if self.remove_window(w) {
            self.insert_window(w);
        }
    }

    /// Selects a window and leads the focus to it; says whether it was there.
    pub fn focus_window(&mut self, w: WinId) -> (r: bool)
        requires
            old(self)@.wf(),
        ensures
            r == old(self)@.windows().contains(w),
            final(self)@ == old(self)@.focus_on(w),
            final(self)@.wf(),
        decreases old(self)@,
    {
        match self {
            Frame::Leaf(l) => {
                let i: usize = find_window(&l.windows, w);
                if i < l.windows.len() {
                    l.selected = i;
                    true
                } else {
                    false
                }
            },
            Frame::Split(s) => {
                proof {
                    lemma_contains_concat(s.first@.windows(), s.second@.windows(), w);
                }
                let in_first: bool = s.first.focus_window(w);
                if in_first {
                    s.selection = 0;
                    true
                } else {
                    proof {
                        lemma_focus_on_absent(old(self)@->first, w);
                    }
                    let in_second: bool = s.second.focus_window(w);
                    if in_second {
                        s.selection = 1;
                        true
                    } else {
                        proof {
                            lemma_focus_on_absent(old(self)@->second, w);
                        }
                        false
                    }
                }
            },
        }
    }

    fn collect_marks(&self, on: bool, out: &mut Vec<bool>)
        ensures
            final(out)@ == old(out)@ + marks(self@, on),
        decreases self,
    {
        match self {
            Frame::Leaf(_) => {
                out.push(on);
                assert(out@ =~= old(out)@ + seq![on]);
            },
            Frame::Split(s) => {
                s.first.collect_marks(on && s.selection == 0, out);
                s.second.collect_marks(on && s.selection != 0, out);
                assert(out@ =~= old(out)@ + marks(self@, on));
            },
        }
    }

    fn leaf_marks(&self) -> (r: Vec<bool>)
        ensures
            r@ == marks(self@, true),
            r@.len() == self@.leaves(),
    {
        let mut v: Vec<bool> = Vec::new();
        self.collect_marks(true, &mut v);
        proof {
            assert(Seq::<bool>::empty() + marks(self@, true) =~= marks(self@, true));
            lemma_marks(self@, true);
        }
        v
    }

    /// The number of leaves.
    pub fn leaves_total(&self) -> (r: usize)
        ensures
            r == self@.leaves(),
            r > 0,
    {
        proof {
            lemma_marks(self@, true);
        }
        self.leaf_marks().len()
    }

    /// The number of leaves before the focused one.
    pub fn focused_leaf_index(&self) -> (r: usize)
        ensures
            r == self@.focused_index(),
            r < self@.leaves(),
    {
        let v = self.leaf_marks();
        proof {
            lemma_marks(self@, true);
        }
        let mut i: usize = 0;
        while i < v.len() && !v[i]
            invariant
                i <= v@.len() == self@.leaves(),
                v@ == marks(self@, true),
                i <= self@.focused_index() < self@.leaves(),
                forall|j: int|
                    0 <= j < self@.leaves() ==> #[trigger] v@[j] == (j == self@.focused_index()),
            decreases v@.len() - i,
        {
            assert(v@[i as int] == (i == self@.focused_index()));
            i += 1;
        }
        i
    }

    /// Leads the focus to the `n`-th leaf; says whether there is one.
    pub fn focus_nth_leaf(&mut self, n: usize) -> (r: bool)
        requires
            old(self)@.wf(),
        ensures
            r == (n < old(self)@.leaves()),
            r ==> final(self)@ == old(self)@.focus_nth(n as int),
            !r ==> final(self)@ == old(self)@,
            final(self)@.wf(),
    {
        if n < self.leaves_total() {
            self.lead_to(n);
            true
        } else {
            false
        }
    }

    fn lead_to(&mut self, n: usize)
        requires
            old(self)@.wf(),
            n < old(self)@.leaves(),
        ensures
            final(self)@ == old(self)@.focus_nth(n as int),
            final(self)@.wf(),
            final(self)@.leaves() == old(self)@.leaves(),
        decreases old(self)@,
    {
        match self {
            Frame::Leaf(_) => {},
            Frame::Split(s) => {
                let k: usize = s.first.leaves_total();
                if n < k {
                    s.selection = 0;
                    s.first.lead_to(n);
                } else {
                    s.selection = 1;
                    s.second.lead_to(n - k);
                }
            },
        }
    }

    /// Moves the focus `delta` leaves on, round the tree.
    pub fn cycle_frame(&mut self, delta: i32)
        requires
            old(self)@.wf(),
        ensures
            final(self)@ == if old(self)@.leaves() <= 1 {
                old(self)@
            } else {
                old(self)@.focus_nth(
                    (old(self)@.focused_index() + delta) % (old(self)@.leaves() as int),
                )
            },
            final(self)@.wf(),
    {
        let total: usize = self.leaves_total();
        if total > 1 {
            let cur: usize = self.focused_leaf_index();
            self.lead_to(step_round(cur, delta, total));
        }
    }

    /// Moves the selection of the focused leaf `delta` windows on, round its stack.
    pub fn cycle(&mut self, delta: i32)
        requires
            old(self)@.wf(),
        ensures
            final(self)@ == old(self)@.map_focused(|l: Tree| cycle_leaf(l, delta as int)),
            final(self)@.wf(),
        decreases old(self)@,
    {
        match self {
            Frame::Leaf(l) => if l.windows.len() > 0 {
                l.selected = step_round(l.selected, delta, l.windows.len());
            },
            Frame::Split(s) => if s.selection == 0 {
                s.first.cycle(delta);
            } else {
                s.second.cycle(delta);
            },
        }
    }

    /// Arranges the focused leaf as given.
    pub fn set_layout(&mut self, layout: LayoutMode)
        requires
            old(self)@.wf(),
        ensures
            final(self)@ == old(self)@.map_focused(|l: Tree| arrange_leaf(l, layout)),
            final(self)@.wf(),
        decreases old(self)@,
    {
        match self {
            Frame::Leaf(l) => {
                l.layout = layout;
            },
            Frame::Split(s) => if s.selection == 0 {
                s.first.set_layout(layout);
            } else {
                s.second.set_layout(layout);
            },
        }
    }

    /// Gives the focused leaf the arrangement that follows its own.
    pub fn cycle_layout(&mut self)
        requires
            old(self)@.wf(),
        ensures
            final(self)@ == old(self)@.map_focused(|l: Tree| advance_leaf(l)),
            final(self)@.wf(),
        decreases old(self)@,
    {
        match self {
            Frame::Leaf(l) => {
                l.layout = l.layout.next();
            },
            Frame::Split(s) => if s.selection == 0 {
                s.first.cycle_layout();
            } else {
                s.second.cycle_layout();
            },
        }
    }

    fn split_node(self, dir: SplitDir, fraction: Ratio) -> (r: Frame)
        requires
            self@.wf(),
            self@ is Leaf,
            fraction.wf(),
        ensures
            r@ == split_leaf(self@, dir, fraction),
            r@.wf(),
    {
        reveal_with_fuel(Frame::view, 3);
        reveal_with_fuel(Tree::wf, 3);
        match dir {
            SplitDir::Explode => match self {
                Frame::Leaf(l) => if l.windows.len() < 2 {
                    Frame::Leaf(l)
                } else {
                    let layout = l.layout;
                    let mut moved = l.windows;
                    let kept: WinId = moved.remove(l.selected);
                    let mut one: Vec<WinId> = Vec::new();
                    one.push(kept);
                    assert(one@ =~= seq![kept]);
                    Frame::Split(
                        Split {
                            orient: Orientation::Horizontal,
                            ratio: Ratio { units: HALF },
                            selection: 0,
                            first: Box::new(Frame::Leaf(Leaf { windows: one, selected: 0, layout })),
                            second: Box::new(Frame::Leaf(Leaf { windows: moved, selected: 0, layout })),
                        },
                    )
                },
                other => other,
            },
            SplitDir::Left => Frame::Split(
                Split {
                    orient: Orientation::Horizontal,
                    ratio: fraction,
                    selection: 1,
                    first: Box::new(Frame::new()),
                    second: Box::new(self),
                },
            ),
            SplitDir::Right => Frame::Split(
                Split {
                    orient: Orientation::Horizontal,
                    ratio: fraction.complement(),
                    selection: 0,
                    first: Box::new(self),
                    second: Box::new(Frame::new()),
                },
            ),
            SplitDir::Up => Frame::Split(
                Split {
                    orient: Orientation::Vertical,
                    ratio: fraction,
                    selection: 1,
                    first: Box::new(Frame::new()),
                    second: Box::new(self),
                },
            ),
            SplitDir::Down => Frame::Split(
                Split {
                    orient: Orientation::Vertical,
                    ratio: fraction.complement(),
                    selection: 0,
                    first: Box::new(self),
                    second: Box::new(Frame::new()),
                },
            ),
        }
    }

    /// Splits the focused leaf.
    pub fn split(&mut self, dir: SplitDir, fraction: Ratio)
        requires
            old(self)@.wf(),
            fraction.wf(),
        ensures
            final(self)@ == old(self)@.map_focused(|l: Tree| split_leaf(l, dir, fraction)),
            final(self)@.wf(),
        decreases old(self)@,
    {
        match self {
            Frame::Leaf(_) => {
                let mut leaf = Frame::new();
                core::mem::swap(self, &mut leaf);
                *self = leaf.split_node(dir, fraction);
            },
            Frame::Split(s) => if s.selection == 0 {
                s.first.split(dir, fraction);
            } else {
                s.second.split(dir, fraction);
            },
        }
    }

    fn push_windows(&mut self, more: Vec<WinId>)
        requires
            old(self)@.wf(),
        ensures
            final(self)@ == old(self)@.map_focused(|l: Tree| append_to_leaf(l, more@)),
            final(self)@.wf(),
        decreases old(self)@,
    {
        match self {
            Frame::Leaf(l) => {
                let mut rest = more;
                l.windows.append(&mut rest);
            },
            Frame::Split(s) => if s.selection == 0 {
                s.first.push_windows(more);
            } else {
                s.second.push_windows(more);
            },
        }
    }

    fn pruned(self) -> (r: Frame)
        requires
            self@.wf(),
        ensures
            r@ == self@.remove_frame(),
            r@.wf(),
        decreases self@,
    {
        reveal_with_fuel(Frame::view, 3);
        reveal_with_fuel(Tree::windows, 2);
        match self {
            Frame::Leaf(l) => Frame::Leaf(l),
            Frame::Split(s) => {
                let Split { orient, ratio, selection, first, second } = s;
                if selection == 0 {
                    match *first {
                        Frame::Leaf(l) => {
                            let mut rest = *second;
                            rest.push_windows(l.windows);
                            rest
                        },
                        Frame::Split(inner) => Frame::Split(
                            Split {
                                orient,
                                ratio,
                                selection,
                                first: Box::new(Frame::Split(inner).pruned()),
                                second,
                            },
                        ),
                    }
                } else {
                    match *second {
                        Frame::Leaf(l) => {
                            let mut rest = *first;
                            rest.push_windows(l.windows);
                            rest
                        },
                        Frame::Split(inner) => Frame::Split(
                            Split {
                                orient,
                                ratio,
                                selection,
                                first,
                                second: Box::new(Frame::Split(inner).pruned()),
                            },
                        ),
                    }
                }
            },
        }
    }

    /// Takes the focused leaf out and hands its windows to its sibling. The last
    /// leaf stays.
    pub fn remove_frame(&mut self)
        requires
            old(self)@.wf(),
        ensures
            final(self)@ == old(self)@.remove_frame(),
            final(self)@.wf(),
    {
        let mut whole = Frame::new();
        core::mem::swap(self, &mut whole);
        *self = whole.pruned();
    }

    /// Moves the nearest border on the axis of `dir` by `delta`; says whether there
    /// is one.
    pub fn resize(&mut self, dir: Dir, delta: Double) -> (r: bool)
        requires
            old(self)@.wf(),
            delta.wf(),
        ensures
            r == (old(self)@.resize(dir, delta) is Some),
            r ==> final(self)@ == old(self)@.resize(dir, delta)->0,
            !r ==> final(self)@ == old(self)@,
            final(self)@.wf(),
        decreases old(self)@,
    {
        match self {
            Frame::Leaf(_) => false,
            Frame::Split(s) => {
                let inner: bool = if s.selection == 0 {
                    s.first.resize(dir, delta)
                } else {
                    s.second.resize(dir, delta)
                };
                if inner {
                    true
                } else if (s.orient == Orientation::Horizontal) == dir.horizontal() {
                    let forward: bool = dir == Dir::Right || dir == Dir::Down;
                    s.ratio = s.ratio.nudge(delta, forward != (s.selection == 0));
                    true
                } else {
                    false
                }
            },
        }
    }
}

impl Default for Frame {
    fn default() -> (r: Frame)
        ensures
            r@ == bare_leaf(LayoutMode::Vertical),
            r@.wf(),
    {
        Frame::new()
    }
}

// --- geometry -------------------------------------------------------------------

/// What is left of a length once the gap is taken off.
fn room_left(length: i32, gap: i32) -> (r: i32)
    ensures
        r == room(length as int, gap as int),
        r >= 0,
{
    let left: i128 = length as i128 - gap as i128;
    clip_to(
        if left > 0 {
            left
        } else {
            0
        },
    )
}

/// The two parts of an area that is split, with the gap between them.
pub fn split_rect(area: Rect, orient: Orientation, ratio: Ratio, gap: i32) -> (r: (Rect, Rect))
    requires
        ratio.wf(),
    ensures
        r == cut(area, orient, ratio, gap as int),
{
    match orient {
        Orientation::Horizontal => {
            let avail: i32 = room_left(area.w, gap);
            let w0: i32 = ratio.share(avail);
            let x: i32 = clip_to(area.x as i128 + w0 as i128 + gap as i128);
            (Rect::new(area.x, area.y, w0, area.h), Rect::new(x, area.y, avail - w0, area.h))
        },
        Orientation::Vertical => {
            let avail: i32 = room_left(area.h, gap);
            let h0: i32 = ratio.share(avail);
            let y: i32 = clip_to(area.y as i128 + h0 as i128 + gap as i128);
            (Rect::new(area.x, area.y, area.w, h0), Rect::new(area.x, y, area.w, avail - h0))
        },
    }
}

/// The length of each of `n` equal pieces of a length, with gaps between them.
fn piece(length: i32, n: i128, gap: i32) -> (r: i128)
    requires
        1 <= n <= 0x1_0000_0000_0000_0000,
    ensures
        r == quotient(length - (n - 1) * gap, n as int),
        -0x1_0000_0000 <= r <= 0x1_0000_0000,
{
    assert(-(0x1_0000_0000 * n) <= length - (n - 1) * gap <= 0x1_0000_0000 * n) by (nonlinear_arith)
        requires
            1 <= n,
            -0x8000_0000 <= gap <= 0x7fff_ffff,
            -0x8000_0000 <= length <= 0x7fff_ffff,
    ;
    assert(-0x8000_0000 * n <= (n - 1) * gap <= 0x8000_0000 * n) by (nonlinear_arith)
        requires
            1 <= n,
            -0x8000_0000 <= gap <= 0x7fff_ffff,
    ;
    let total: i128 = length as i128 - (n - 1) * gap as i128;
    let ghost size = if total >= 0 {
        total as int
    } else {
        -(total as int)
    };
    assert(size / (n as int) <= 0x1_0000_0000) by (nonlinear_arith)
        requires
            0 <= size <= 0x1_0000_0000 * n,
            n >= 1,
    ;
    divide(total, n)
}

/// `i` pieces and gaps on from a start.
fn offset(start: i32, i: i128, size: i128, gap: i32) -> (r: i32)
    requires
        0 <= i <= 0x1_0000_0000_0000_0000,
        -0x1_0000_0000 <= size <= 0x1_0000_0000,
    ensures
        r == clip(start + i * (size + gap)),
{
    assert(-0x2_0000_0000_0000_0000_0000_0000i128 <= i * (size + gap)
        <= 0x2_0000_0000_0000_0000_0000_0000i128) by (nonlinear_arith)
        requires
            0 <= i <= 0x1_0000_0000_0000_0000,
            -0x1_0000_0000 <= size <= 0x1_0000_0000,
            -0x8000_0000 <= gap <= 0x7fff_ffff,
    ;
    clip_to(start as i128 + i * (size + gap as i128))
}

/// The number of columns of a grid of `n`.
fn columns_of(n: i128) -> (c: i128)
    requires
        1 <= n <= 0x1_0000_0000_0000_0000,
    ensures
        c == grid_columns(n as int),
        1 <= c <= n,
{
    let mut c: i128 = 1;
    while c < n && c * c < n
        invariant
            1 <= c <= n <= 0x1_0000_0000_0000_0000,
            root_from(n as int, c as int) == grid_columns(n as int),
            c <= 0x1_0000_0001,
            c * c <= 0x4_0000_0000_0000_0000,
        decreases n - c,
    {
        assert(c <= 0x1_0000_0000) by (nonlinear_arith)
            requires
                c * c < n,
                n <= 0x1_0000_0000_0000_0000,
        ;
        assert((c + 1) * (c + 1) <= 0x4_0000_0000_0000_0000) by (nonlinear_arith)
            requires
                1 <= c <= 0x1_0000_0000,
        ;
        c += 1;
    }
    c
}

/// The `i`-th cell of a grid of `n`.
fn grid_place(area: Rect, n: i128, i: i128, gap: i32) -> (r: Rect)
    requires
        0 <= i < n <= 0x1_0000_0000_0000_0000,
    ensures
        r == grid_cell(area, n as int, i as int, gap as int),
{
    let cols: i128 = columns_of(n);
    let rows: i128 = (n + cols - 1) / cols;
    assert(1 <= rows <= n && 0 <= i / cols <= i) by (nonlinear_arith)
        requires
            rows == (n + cols - 1) / (cols as int),
            1 <= cols <= n,
            0 <= i < n,
    ;
    let col: i128 = i % cols;
    let row: i128 = i / cols;
    let cells: i128 = if row == rows - 1 && n % cols != 0 { n % cols } else { cols };
    let w: i128 = piece(area.w, cells, gap);
    let h: i128 = piece(area.h, rows, gap);
    Rect::new(offset(area.x, col, w, gap), offset(area.y, row, h, gap), clip_to(w), clip_to(h))
}

/// Where the `i`-th of `n` windows of a leaf goes.
fn cell_place(layout: LayoutMode, area: Rect, n: usize, i: usize, gap: i32) -> (r: Rect)
    requires
        i < n,
    ensures
        r == cell(layout, area, n as int, i as int, gap as int),
{
    match layout {
        LayoutMode::Max => area,
        LayoutMode::Vertical => {
            let h: i128 = piece(area.h, n as i128, gap);
            Rect::new(area.x, offset(area.y, i as i128, h, gap), area.w, clip_to(h))
        },
        LayoutMode::Horizontal => {
            let w: i128 = piece(area.w, n as i128, gap);
            Rect::new(offset(area.x, i as i128, w, gap), area.y, clip_to(w), area.h)
        },
        LayoutMode::Grid => grid_place(area, n as i128, i as i128, gap),
    }
}

/// Adds the placement of a leaf's windows.
fn layout_leaf(l: &Leaf, area: Rect, gap: i32, out: &mut Vec<Placement>)
    ensures
        final(out)@ == old(out)@ + place_leaf(
            l.windows@,
            l.selected as int,
            l.layout,
            area,
            gap as int,
        ),
{
    let n: usize = l.windows.len();
    let ghost all = place_leaf(l.windows@, l.selected as int, l.layout, area, gap as int);
    let mut i: usize = 0;
    assert(out@ =~= old(out)@ + all.take(0));
    while i < n
        invariant
            i <= n == l.windows@.len(),
            all == place_leaf(l.windows@, l.selected as int, l.layout, area, gap as int),
            out@ == old(out)@ + all.take(i as int),
        decreases n - i,
    {
        let rect = cell_place(l.layout, area, n, i, gap);
        let visible: bool = l.layout != LayoutMode::Max || i == l.selected;
        out.push(Placement { win: l.windows[i], rect, visible });
        i += 1;
        assert(out@ =~= old(out)@ + all.take(i as int));
    }
    assert(all.take(n as int) =~= all);
}

/// The middle of a rectangle.
fn middle(r: Rect) -> (m: (i128, i128))
    ensures
        m.0 == middle_x(r),
        m.1 == middle_y(r),
        -0x2_0000_0000 <= m.0 <= 0x2_0000_0000,
        -0x2_0000_0000 <= m.1 <= 0x2_0000_0000,
{
    (r.x as i128 + divide(r.w as i128, 2), r.y as i128 + divide(r.h as i128, 2))
}

/// Whether two stretches share a point.
fn overlaps(a: i32, a_len: i32, b: i32, b_len: i32) -> (r: bool)
    ensures
        r == overlap(a as int, a_len as int, b as int, b_len as int),
{
    (a as i64) < b as i64 + b_len as i64 && (b as i64) < a as i64 + a_len as i64
}

/// Whether `r` lies from `from` in the direction.
fn is_towards(from: Rect, r: Rect, dir: Dir) -> (b: bool)
    ensures
        b == lies_towards(from, r, dir),
{
    let f = middle(from);
    let m = middle(r);
    match dir {
        Dir::Left => m.0 < f.0 && overlaps(from.y, from.h, r.y, r.h),
        Dir::Right => m.0 > f.0 && overlaps(from.y, from.h, r.y, r.h),
        Dir::Up => m.1 < f.1 && overlaps(from.x, from.w, r.x, r.w),
        Dir::Down => m.1 > f.1 && overlaps(from.x, from.w, r.x, r.w),
    }
}

/// The square of the distance of two middles.
fn squared_distance(a: Rect, b: Rect) -> (d: i128)
    ensures
        d == distance(a, b),
{
    let m = middle(a);
    let n = middle(b);
    let dx: i128 = n.0 - m.0;
    let dy: i128 = n.1 - m.1;
    assert(0 <= dx * dx <= 0x10_0000_0000_0000_0000 && 0 <= dy * dy <= 0x10_0000_0000_0000_0000)
        by (nonlinear_arith)
        requires
            -0x4_0000_0000 <= dx <= 0x4_0000_0000,
            -0x4_0000_0000 <= dy <= 0x4_0000_0000,
    ;
    dx * dx + dy * dy
}

/// The rectangle nearest to the `from`-th of those that lie in the direction.
fn pick_neighbor(rects: &Vec<Rect>, from: usize, dir: Dir) -> (r: Option<usize>)
    requires
        from < rects@.len(),
    ensures
        r is Some <==> nearest_leaf(rects@, from as int, dir, rects@.len()) is Some,
        r is Some ==> r->0 == nearest_leaf(rects@, from as int, dir, rects@.len())->0,
        r is Some ==> r->0 < rects@.len(),
{
    let mut best: Option<usize> = None;
    let mut i: usize = 0;
    while i < rects.len()
        invariant
            i <= rects@.len(),
            from < rects@.len(),
            best is Some <==> nearest_leaf(rects@, from as int, dir, i as nat) is Some,
            best is Some ==> best->0 == nearest_leaf(rects@, from as int, dir, i as nat)->0,
            best is Some ==> best->0 < i,
        decreases rects@.len() - i,
    {
        if i != from && is_towards(rects[from], rects[i], dir) {
            let closer: bool = match best {
                None => true,
                Some(b) => squared_distance(rects[from], rects[i]) < squared_distance(
                    rects[from],
                    rects[b],
                ),
            };
            if closer {
                best = Some(i);
            }
        }
        i += 1;
    }
    best
}

proof fn lemma_leaf_rects_count(t: Tree, area: Rect, gap: int)
    ensures
        t.leaf_rects(area, gap).len() == t.leaves(),
    decreases t,
{
    match t {
        Tree::Leaf { .. } => {},
        Tree::Split { orient, ratio, selection, first, second } => {
            lemma_leaf_rects_count(*first, cut(area, orient, ratio, gap).0, gap);
            lemma_leaf_rects_count(*second, cut(area, orient, ratio, gap).1, gap);
        },
    }
}

impl Frame {
    /// The placement of every window within `area`.
    pub fn placements(&self, area: Rect, gap: i32) -> (r: Vec<Placement>)
        requires
            self@.wf(),
        ensures
            r@ == self@.place(area, gap as int),
    {
        let mut out: Vec<Placement> = Vec::new();
        self.place(area, gap, &mut out);
        assert(Seq::<Placement>::empty() + self@.place(area, gap as int) =~= self@.place(
            area,
            gap as int,
        ));
        out
    }

    fn place(&self, area: Rect, gap: i32, out: &mut Vec<Placement>)
        requires
            self@.wf(),
        ensures
            final(out)@ == old(out)@ + self@.place(area, gap as int),
        decreases self,
    {
        match self {
            Frame::Split(s) => {
                let (a, b) = split_rect(area, s.orient, s.ratio, gap);
                s.first.place(a, gap, out);
                s.second.place(b, gap, out);
                assert(out@ =~= old(out)@ + self@.place(area, gap as int));
            },
            Frame::Leaf(l) => layout_leaf(l, area, gap, out),
        }
    }

    /// The rectangle of every leaf within `area`.
    pub fn leaf_rects(&self, area: Rect, gap: i32) -> (r: Vec<Rect>)
        requires
            self@.wf(),
        ensures
            r@ == self@.leaf_rects(area, gap as int),
            r@.len() == self@.leaves(),
    {
        let mut out: Vec<Rect> = Vec::new();
        self.collect_leaf_rects(area, gap, &mut out);
        proof {
            assert(Seq::<Rect>::empty() + self@.leaf_rects(area, gap as int) =~= self@.leaf_rects(
                area,
                gap as int,
            ));
            lemma_leaf_rects_count(self@, area, gap as int);
        }
        out
    }

    fn collect_leaf_rects(&self, area: Rect, gap: i32, out: &mut Vec<Rect>)
        requires
            self@.wf(),
        ensures
            final(out)@ == old(out)@ + self@.leaf_rects(area, gap as int),
        decreases self,
    {
        match self {
            Frame::Leaf(_) => {
                out.push(area);
                assert(out@ =~= old(out)@ + seq![area]);
            },
            Frame::Split(s) => {
                let (a, b) = split_rect(area, s.orient, s.ratio, gap);
                s.first.collect_leaf_rects(a, gap, out);
                s.second.collect_leaf_rects(b, gap, out);
                assert(out@ =~= old(out)@ + self@.leaf_rects(area, gap as int));
            },
        }
    }

    fn neighbor(&self, dir: Dir, area: Rect, gap: i32) -> (r: Option<usize>)
        requires
            self@.wf(),
        ensures
            r is Some <==> self@.neighbor(dir, area, gap as int) is Some,
            r is Some ==> r->0 == self@.neighbor(dir, area, gap as int)->0,
            r is Some ==> r->0 < self@.leaves(),
    {
        let rects = self.leaf_rects(area, gap);
        pick_neighbor(&rects, self.focused_leaf_index(), dir)
    }

    /// Moves the focus to the next leaf in the direction; says whether there is one.
    pub fn focus_dir(&mut self, dir: Dir, area: Rect, gap: i32) -> (r: bool)
        requires
            old(self)@.wf(),
        ensures
            r == (old(self)@.neighbor(dir, area, gap as int) is Some),
            r ==> final(self)@ == old(self)@.focus_nth(old(self)@.neighbor(dir, area, gap as int)->0),
            !r ==> final(self)@ == old(self)@,
            final(self)@.wf(),
    {
        match self.neighbor(dir, area, gap) {
            Some(n) => {
                self.lead_to(n);
                true
            },
            None => false,
        }
    }

    /// Moves the focused window to the next leaf in the direction; says whether
    /// there are both.
    pub fn shift_dir(&mut self, dir: Dir, area: Rect, gap: i32) -> (r: bool)
        requires
            old(self)@.wf(),
        ensures
            r == (old(self)@.neighbor(dir, area, gap as int) is Some && old(
                self,
            )@.focused_window() is Some),
            r ==> final(self)@ == old(self)@.remove(old(self)@.focused_window()->0).focus_nth(
                old(self)@.neighbor(dir, area, gap as int)->0,
            ).insert(old(self)@.focused_window()->0),
            !r ==> final(self)@ == old(self)@,
            final(self)@.wf(),
    {
        match self.neighbor(dir, area, gap) {
            Some(n) => match self.focused_window() {
                Some(w) => {
                    proof {
                        lemma_remove_leaves(self@, w);
                    }
                    self.remove_window(w);
                    self.lead_to(n);
                    self.insert_window(w);
                    true
                },
                None => false,
            },
            None => false,
        }
    }

    /// Drops every window that is not in `keep`.
    pub fn retain_windows(&mut self, keep: &HashSet<WinId>)
        requires
            old(self)@.wf(),
        ensures
            final(self)@ == old(self)@.retain(keep@),
            final(self)@.wf(),
        decreases old(self)@,
    {
        broadcast use group_hash_axioms;

        match self {
            Frame::Leaf(l) => {
                let mut left: Vec<WinId> = Vec::new();
                let mut i: usize = 0;
                let ghost all = l.windows@;
                let ghost p = |w: WinId| keep@.contains(w);
                assert(all.take(0).filter(p) =~= Seq::<WinId>::empty()) by {
                    reveal(Seq::filter);
                }
                while i < l.windows.len()
                    invariant
                        i <= l.windows@.len(),
                        all == l.windows@,
                        left@ == all.take(i as int).filter(p),
                        p == (|w: WinId| keep@.contains(w)),
                    decreases l.windows@.len() - i,
                {
                    let w: WinId = l.windows[i];
                    proof {
                        assert(all.take(i + 1).drop_last() =~= all.take(i as int));
                        assert(all.take(i + 1).last() == w);
                        reveal(Seq::filter);
                    }
                    if keep.contains(&w) {
                        left.push(w);
                    }
                    i += 1;
                }
                assert(all.take(i as int) =~= all);
                if l.selected >= left.len() {
                    l.selected = if left.len() > 0 { left.len() - 1 } else { 0 };
                }
                l.windows = left;
            },
            Frame::Split(s) => {
                s.first.retain_windows(keep);
                s.second.retain_windows(keep);
            },
        }
    }
}

proof fn lemma_remove_leaves(t: Tree, w: WinId)
    ensures
        t.remove(w).leaves() == t.leaves(),
    decreases t,
{
    match t {
        Tree::Leaf { .. } => {},
        Tree::Split { first, second, .. } => {
            lemma_remove_leaves(*first, w);
            lemma_remove_leaves(*second, w);
        },
    }
}

} // verus!
