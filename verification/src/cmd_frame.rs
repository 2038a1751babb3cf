//! Commands on the frame tree of the focused tag.

use vstd::prelude::*;
use crate::double::{clamped, double_text, Double};
use crate::frame::{dir_named, layout_named, split_named, Dir, Frame, LayoutMode, SplitDir, WinId};
use crate::monitor::{step_round, Rect, TagId};
use crate::number::{parse_usize, unsigned};
use crate::ratio::{Ratio, HALF};
use crate::reply::{err, err_text, ok, ok_text, read_steps, steps};
use crate::state::{lemma_tree_wf, lemma_with_tree_wf, State, World};
use crate::text::{strip_start, trim_start, Class, Text};
use crate::tree::{advance_leaf, arrange_leaf, cycle_leaf, place_of, split_leaf, Tree};

verus! {

/// The step of a border that no other is given for: the double next to 0.02.
pub const USUAL_STEP: u128 = 51922968585348277366168873861120;

/// The share that a new frame gets: the second argument, or a half.
pub open spec fn split_share(a: Seq<Text>) -> Ratio {
    if a.len() > 1 && double_text(a[1]) is Some {
        clamped(double_text(a[1])->0)
    } else {
        Ratio { units: HALF }
    }
}

/// `split <side|explode> [share]`.
pub open spec fn split_frame(w: World, a: Seq<Text>) -> (World, Text) {
    if a.len() == 0 || split_named(a[0]) is None {
        (w, err_text("split: expected top|bottom|left|right|horizontal|vertical|explode"@))
    } else {
        let dir = split_named(a[0])->0;
        let share = split_share(a);
        (
            w.map_tree(|t: Tree| t.map_focused(|l: Tree| split_leaf(l, dir, share))).manage(),
            ok_text(),
        )
    }
}

pub fn cmd_split(state: &mut State, a: &[String]) -> (r: String)
    requires
        old(state)@.wf(),
    ensures
        (final(state)@, r@) == split_frame(old(state)@, a.deep_view()),
        final(state)@.wf(),
{
    let ghost w = state@;
    assert(a@.len() > 0 ==> a.deep_view()[0] == a@[0]@);
    assert(a@.len() > 1 ==> a.deep_view()[1] == a@[1]@);
    let named: Option<SplitDir> = if a.len() > 0 {
        SplitDir::parse(a[0].as_str())
    } else {
        None
    };
    match named {
        None => err("split: expected top|bottom|left|right|horizontal|vertical|explode"),
        Some(dir) => {
            let given: Option<Double> = if a.len() > 1 {
                Double::parse(a[1].as_str())
            } else {
                None
            };
            let share: Ratio = match given {
                Some(d) => d.clamp(),
                None => Ratio { units: HALF },
            };
            let tag: TagId = state.focused_tag();
            proof {
                lemma_tree_wf(w, tag);
            }
            let tree = state.tag_tree_mut(tag);
            tree.split(dir, share);
            proof {
                lemma_with_tree_wf(
                    w,
                    tag,
                    w.tree_or_new(tag).map_focused(|l: Tree| split_leaf(l, dir, share)),
                );
            }
            state.request_manage();
            ok()
        },
    }
}

/// A tree with the focus on the next leaf in a direction, where there is one.
pub open spec fn focus_towards(t: Tree, dir: Dir, area: Rect, gap: int) -> Tree {
    match t.neighbor(dir, area, gap) {
        Some(n) => t.focus_nth(n),
        None => t,
    }
}

/// A tree with the focused window in the next leaf in a direction, where there are both.
pub open spec fn shift_towards(t: Tree, dir: Dir, area: Rect, gap: int) -> Tree {
    match (t.neighbor(dir, area, gap), t.focused_window()) {
        (Some(n), Some(id)) => t.remove(id).focus_nth(n).insert(id),
        _ => t,
    }
}

/// `focus <side>`.
pub open spec fn focus(w: World, a: Seq<Text>) -> (World, Text) {
    if a.len() == 0 || dir_named(a[0]) is None {
        (w, err_text("focus: expected left|down|up|right"@))
    } else {
        let dir = dir_named(a[0])->0;
        let area = w.focused_area();
        let gap = w.settings.window_gap as int;
        (w.map_tree(|t: Tree| focus_towards(t, dir, area, gap)).manage(), ok_text())
    }
}

pub fn cmd_focus(state: &mut State, a: &[String]) -> (r: String)
    requires
        old(state)@.wf(),
    ensures
        (final(state)@, r@) == focus(old(state)@, a.deep_view()),
        final(state)@.wf(),
{
    let ghost w = state@;
    assert(a@.len() > 0 ==> a.deep_view()[0] == a@[0]@);
    let named: Option<Dir> = if a.len() > 0 {
        Dir::parse(a[0].as_str())
    } else {
        None
    };
    match named {
        None => err("focus: expected left|down|up|right"),
        Some(dir) => {
            let area = state.focused_area();
            let gap: i32 = state.settings.window_gap;
            let tag: TagId = state.focused_tag();
            proof {
                lemma_tree_wf(w, tag);
            }
            let tree = state.tag_tree_mut(tag);
            tree.focus_dir(dir, area, gap);
            proof {
                lemma_with_tree_wf(w, tag, focus_towards(w.tree_or_new(tag), dir, area, gap as int));
            }
            state.request_manage();
            ok()
        },
    }
}

/// `shift <side>`.
pub open spec fn shift(w: World, a: Seq<Text>) -> (World, Text) {
    if a.len() == 0 || dir_named(a[0]) is None {
        (w, err_text("shift: expected left|down|up|right"@))
    } else {
        let dir = dir_named(a[0])->0;
        let area = w.focused_area();
        let gap = w.settings.window_gap as int;
        (w.map_tree(|t: Tree| shift_towards(t, dir, area, gap)).manage(), ok_text())
    }
}

pub fn cmd_shift(state: &mut State, a: &[String]) -> (r: String)
    requires
        old(state)@.wf(),
    ensures
        (final(state)@, r@) == shift(old(state)@, a.deep_view()),
        final(state)@.wf(),
{
    let ghost w = state@;
    assert(a@.len() > 0 ==> a.deep_view()[0] == a@[0]@);
    let named: Option<Dir> = if a.len() > 0 {
        Dir::parse(a[0].as_str())
    } else {
        None
    };
    match named {
        None => err("shift: expected left|down|up|right"),
        Some(dir) => {
            let area = state.focused_area();
            let gap: i32 = state.settings.window_gap;
            let tag: TagId = state.focused_tag();
            proof {
                lemma_tree_wf(w, tag);
            }
            let tree = state.tag_tree_mut(tag);
            tree.shift_dir(dir, area, gap);
            proof {
                lemma_with_tree_wf(w, tag, shift_towards(w.tree_or_new(tag), dir, area, gap as int));
            }
            state.request_manage();
            ok()
        },
    }
}

/// How far a border is moved: the second argument, or a fiftieth.
pub open spec fn resize_step(a: Seq<Text>) -> Double {
    if a.len() > 1 {
        match double_text(trim_start(a[1], Class::Is('+'))) {
            Some(d) => d,
            None => Double::Mag { neg: false, units: USUAL_STEP },
        }
    } else {
        Double::Mag { neg: false, units: USUAL_STEP }
    }
}

/// A tree with a border moved, where there is one to move.
pub open spec fn resized(t: Tree, dir: Dir, delta: Double) -> Tree {
    match t.resize(dir, delta) {
        Some(u) => u,
        None => t,
    }
}

/// `resize <side> [share]`.
pub open spec fn resize(w: World, a: Seq<Text>) -> (World, Text) {
    if a.len() == 0 || dir_named(a[0]) is None {
        (w, err_text("resize: expected left|down|up|right <delta>"@))
    } else {
        let dir = dir_named(a[0])->0;
        let delta = resize_step(a);
        (w.map_tree(|t: Tree| resized(t, dir, delta)).manage(), ok_text())
    }
}

/// Reads how far a border is moved.
fn read_resize_step(a: &[String]) -> (r: Double)
    ensures
        r == resize_step(a.deep_view()),
        r.wf(),
{
    if a.len() > 1 {
        assert(a.deep_view()[1] == a@[1]@);
        let s = strip_start(a[1].as_str(), Class::Is('+'));
        match Double::parse(s.as_str()) {
            Some(d) => d,
            None => Double::Mag { neg: false, units: USUAL_STEP },
        }
    } else {
        Double::Mag { neg: false, units: USUAL_STEP }
    }
}

pub fn cmd_resize(state: &mut State, a: &[String]) -> (r: String)
    requires
        old(state)@.wf(),
    ensures
        (final(state)@, r@) == resize(old(state)@, a.deep_view()),
        final(state)@.wf(),
{
    let ghost w = state@;
    assert(a@.len() > 0 ==> a.deep_view()[0] == a@[0]@);
    let named: Option<Dir> = if a.len() > 0 {
        Dir::parse(a[0].as_str())
    } else {
        None
    };
    match named {
        None => err("resize: expected left|down|up|right <delta>"),
        Some(dir) => {
            let delta = read_resize_step(a);
            let tag: TagId = state.focused_tag();
            proof {
                lemma_tree_wf(w, tag);
            }
            let tree = state.tag_tree_mut(tag);
            tree.resize(dir, delta);
            proof {
                lemma_with_tree_wf(w, tag, resized(w.tree_or_new(tag), dir, delta));
            }
            state.request_manage();
            ok()
        },
    }
}

/// `remove`: the focused frame taken out.
pub open spec fn remove(w: World) -> (World, Text) {
    (w.map_tree(|t: Tree| t.remove_frame()).manage(), ok_text())
}

pub fn cmd_remove(state: &mut State) -> (r: String)
    requires
        old(state)@.wf(),
    ensures
        (final(state)@, r@) == remove(old(state)@),
        final(state)@.wf(),
{
    let ghost w = state@;
    let tag: TagId = state.focused_tag();
    proof {
        lemma_tree_wf(w, tag);
    }
    let tree = state.tag_tree_mut(tag);
    tree.remove_frame();
    proof {
        lemma_with_tree_wf(w, tag, w.tree_or_new(tag).remove_frame());
    }
    state.request_manage();
    ok()
}

/// `cycle [steps]`.
pub open spec fn cycle(w: World, a: Seq<Text>) -> (World, Text) {
    let n = steps(a);
    (w.map_tree(|t: Tree| t.map_focused(|l: Tree| cycle_leaf(l, n))).manage(), ok_text())
}

pub fn cmd_cycle(state: &mut State, a: &[String]) -> (r: String)
    requires
        old(state)@.wf(),
    ensures
        (final(state)@, r@) == cycle(old(state)@, a.deep_view()),
        final(state)@.wf(),
{
    let ghost w = state@;
    let n: i32 = read_steps(a);
    let tag: TagId = state.focused_tag();
    proof {
        lemma_tree_wf(w, tag);
    }
    let tree = state.tag_tree_mut(tag);
    tree.cycle(n);
    proof {
        lemma_with_tree_wf(
            w,
            tag,
            w.tree_or_new(tag).map_focused(|l: Tree| cycle_leaf(l, n as int)),
        );
    }
    state.request_manage();
    ok()
}

/// The window so many places on from the focused one, round all of the tree's.
pub open spec fn window_on(t: Tree, n: int) -> WinId {
    let all = t.windows();
    let at = match t.focused_window() {
        Some(id) => if all.contains(id) {
            place_of(all, id)
        } else {
            0
        },
        None => 0,
    };
    all[(at + n) % (all.len() as int)]
}

/// `cycle_all [steps]`.
pub open spec fn cycle_all(w: World, a: Seq<Text>) -> (World, Text) {
    let n = steps(a);
    let t = w.tree_or_new(w.focused_tag());
    if t.windows().len() == 0 {
        (w.with_tree(w.focused_tag(), t), ok_text())
    } else {
        (w.with_tree(w.focused_tag(), t.focus_on(window_on(t, n))).manage(), ok_text())
    }
}

/// Moves the focus round all windows of a tree; says whether there are any.
fn cycle_windows(tree: &mut Frame, n: i32) -> (r: bool)
    requires
        old(tree)@.wf(),
    ensures
        r == (old(tree)@.windows().len() > 0),
        final(tree)@ == if r {
            old(tree)@.focus_on(window_on(old(tree)@, n as int))
        } else {
            old(tree)@
        },
        final(tree)@.wf(),
{
    let all = tree.all_windows();
    if all.len() == 0 {
        return false;
    }
    let at: usize = match tree.focused_window() {
        Some(id) => {
            let i: usize = crate::frame::find_window(&all, id);
            if i < all.len() {
                i
            } else {
                0
            }
        },
        None => 0,
    };
    let next: WinId = all[step_round(at, n, all.len())];
    tree.focus_window(next);
    true
}

pub fn cmd_cycle_all(state: &mut State, a: &[String]) -> (r: String)
    requires
        old(state)@.wf(),
    ensures
        (final(state)@, r@) == cycle_all(old(state)@, a.deep_view()),
        final(state)@.wf(),
{
    let ghost w = state@;
    let n: i32 = read_steps(a);
    let tag: TagId = state.focused_tag();
    let ghost t = w.tree_or_new(tag);
    proof {
        lemma_tree_wf(w, tag);
        lemma_with_tree_wf(w, tag, t);
        crate::frame_laws::law_focus_window(t, window_on(t, n as int));
        lemma_with_tree_wf(w, tag, t.focus_on(window_on(t, n as int)));
    }
    let tree = state.tag_tree_mut(tag);
    if cycle_windows(tree, n) {
        state.request_manage();
    }
    ok()
}

/// A tree with the focus so many leaves on.
pub open spec fn frame_on(t: Tree, n: int) -> Tree {
    if t.leaves() <= 1 {
        t
    } else {
        t.focus_nth((t.focused_index() + n) % (t.leaves() as int))
    }
}

/// `cycle_frame [steps]`.
pub open spec fn cycle_frame(w: World, a: Seq<Text>) -> (World, Text) {
    let n = steps(a);
    (w.map_tree(|t: Tree| frame_on(t, n)).manage(), ok_text())
}

pub fn cmd_cycle_frame(state: &mut State, a: &[String]) -> (r: String)
    requires
        old(state)@.wf(),
    ensures
        (final(state)@, r@) == cycle_frame(old(state)@, a.deep_view()),
        final(state)@.wf(),
{
    let ghost w = state@;
    let n: i32 = read_steps(a);
    let tag: TagId = state.focused_tag();
    proof {
        lemma_tree_wf(w, tag);
    }
    let tree = state.tag_tree_mut(tag);
    tree.cycle_frame(n);
    proof {
        lemma_with_tree_wf(w, tag, frame_on(w.tree_or_new(tag), n as int));
    }
    state.request_manage();
    ok()
}

/// A tree with the focus on its `n`-th leaf, where there is one.
pub open spec fn frame_at(t: Tree, n: int) -> Tree {
    if n < t.leaves() {
        t.focus_nth(n)
    } else {
        t
    }
}

/// `focus_frame <index>`.
pub open spec fn focus_frame(w: World, a: Seq<Text>) -> (World, Text) {
    if a.len() == 0 || unsigned(a[0], usize::MAX as int) is None {
        (w, err_text("focus_frame: expected a frame index"@))
    } else {
        let n = unsigned(a[0], usize::MAX as int)->0;
        (w.map_tree(|t: Tree| frame_at(t, n)).manage(), ok_text())
    }
}

pub fn cmd_focus_frame(state: &mut State, a: &[String]) -> (r: String)
    requires
        old(state)@.wf(),
    ensures
        (final(state)@, r@) == focus_frame(old(state)@, a.deep_view()),
        final(state)@.wf(),
{
    let ghost w = state@;
    assert(a@.len() > 0 ==> a.deep_view()[0] == a@[0]@);
    let index: Option<usize> = if a.len() > 0 {
        parse_usize(a[0].as_str())
    } else {
        None
    };
    match index {
        None => err("focus_frame: expected a frame index"),
        Some(n) => {
            let tag: TagId = state.focused_tag();
            proof {
                lemma_tree_wf(w, tag);
            }
            let tree = state.tag_tree_mut(tag);
            tree.focus_nth_leaf(n);
            proof {
                lemma_with_tree_wf(w, tag, frame_at(w.tree_or_new(tag), n as int));
            }
            state.request_manage();
            ok()
        },
    }
}

/// `set_layout <arrangement>`.
pub open spec fn set_layout(w: World, a: Seq<Text>) -> (World, Text) {
    if a.len() == 0 || layout_named(a[0]) is None {
        (w, err_text("set_layout: expected max|vertical|horizontal|grid"@))
    } else {
        let mode = layout_named(a[0])->0;
        (w.map_tree(|t: Tree| t.map_focused(|l: Tree| arrange_leaf(l, mode))).manage(), ok_text())
    }
}

pub fn cmd_set_layout(state: &mut State, a: &[String]) -> (r: String)
    requires
        old(state)@.wf(),
    ensures
        (final(state)@, r@) == set_layout(old(state)@, a.deep_view()),
        final(state)@.wf(),
{
    let ghost w = state@;
    assert(a@.len() > 0 ==> a.deep_view()[0] == a@[0]@);
    let named: Option<LayoutMode> = if a.len() > 0 {
        LayoutMode::parse(a[0].as_str())
    } else {
        None
    };
    match named {
        None => err("set_layout: expected max|vertical|horizontal|grid"),
        Some(mode) => {
            let tag: TagId = state.focused_tag();
            proof {
                lemma_tree_wf(w, tag);
            }
            let tree = state.tag_tree_mut(tag);
            tree.set_layout(mode);
            proof {
                lemma_with_tree_wf(
                    w,
                    tag,
                    w.tree_or_new(tag).map_focused(|l: Tree| arrange_leaf(l, mode)),
                );
            }
            state.request_manage();
            ok()
        },
    }
}

/// `cycle_layout`.
pub open spec fn cycle_layout(w: World) -> (World, Text) {
    (w.map_tree(|t: Tree| t.map_focused(|l: Tree| advance_leaf(l))).manage(), ok_text())
}

pub fn cmd_cycle_layout(state: &mut State) -> (r: String)
    requires
        old(state)@.wf(),
    ensures
        (final(state)@, r@) == cycle_layout(old(state)@),
        final(state)@.wf(),
{
    let ghost w = state@;
    let tag: TagId = state.focused_tag();
    proof {
        lemma_tree_wf(w, tag);
    }
    let tree = state.tag_tree_mut(tag);
    tree.cycle_layout();
    proof {
        lemma_with_tree_wf(w, tag, w.tree_or_new(tag).map_focused(|l: Tree| advance_leaf(l)));
    }
    state.request_manage();
    ok()
}

} // verus!
