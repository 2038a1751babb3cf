//! On which side things are: where a new frame comes up, which frame lies in a direction,
//! which edge a border moves, and in what order windows are laid out.

use vstd::prelude::*;
use crate::cmd_frame::{focus_towards, shift_towards};
use crate::double::{nudged, Double, FINE};
use crate::frame::{dir_named, split_named, Dir, SplitDir, WinId};
use crate::frame_laws::{law_focus_nth, law_nearest, population};
use crate::monitor::Rect;
use crate::ratio::{law_share_fits, lemma_rest_in_range, nearest, share, step_at, Ratio, ONE};
use crate::tree::{cut, lies_towards, nearest_leaf, room, split_leaf, Tree};

verus! {

// --- shares -----------------------------------------------------------------------------

proof fn lemma_step_small(x: nat)
    ensures
        step_at(x) >= 1,
        step_at(x) == 1 || step_at(x) * 0x10_0000_0000_0000 <= x,
    decreases x,
{
    if x >= 0x20_0000_0000_0000 {
        lemma_step_small(x / 2);
    }
}

/// The double nearest to a whole number is about that number.
proof fn lemma_nearest_near(x: nat)
    ensures
        -(x / 0x10_0000_0000_0000 + 1) <= nearest(x, 1) - x <= x / 0x10_0000_0000_0000 + 1,
{
    lemma_step_small(x);
    let u = step_at(x);
    let q = x / u;
    assert(x / 1 == x && 1 * u == u);
    assert((q + 1) * u <= x + u && q * u <= x && x < (q + 1) * u && (q + 1) * u == q * u + u)
        by (nonlinear_arith)
        requires
            q == x / u,
            u >= 1,
    ;
    assert(u <= x / 0x10_0000_0000_0000 + 1) by (nonlinear_arith)
        requires
            u == 1 || u * 0x10_0000_0000_0000 <= x,
    ;
}

/// A share of a length is that part of it, to less than a pixel.
pub proof fn law_share_near(avail: nat, r: Ratio)
    requires
        r.wf(),
        avail <= i32::MAX,
    ensures
        -ONE < share(avail, r) * ONE - avail * r.units < ONE,
{
    let x = avail * r.units as nat;
    lemma_nearest_near(x);
    assert(x <= 0x7fff_ffff * ONE) by (nonlinear_arith)
        requires
            x == avail * r.units as nat,
            avail <= 0x7fff_ffff,
            r.units <= ONE,
    ;
}

/// What a share leaves of one, and the share, make one, to eight units.
proof fn lemma_rest_near(r: Ratio)
    requires
        r.wf(),
    ensures
        crate::ratio::rest_of_one(r).wf(),
        -64 <= ONE - r.units - crate::ratio::rest_of_one(r).units <= 64,
{
    lemma_rest_in_range((ONE - r.units) as nat);
    lemma_nearest_near((ONE - r.units) as nat);
}

// --- splitting --------------------------------------------------------------------------

/// The `n`-th leaf.
pub open spec fn leaf_at(t: Tree, n: int) -> Tree {
    t.focus_nth(n).focused_leaf()
}

/// Whether the first rectangle ends above the second, with a gap between them.
pub open spec fn just_above(a: Rect, b: Rect, gap: int) -> bool {
    a.y + a.h + gap == b.y && a.x == b.x && a.w == b.w
}

/// Whether the first rectangle ends left of the second, with a gap between them.
pub open spec fn just_left(a: Rect, b: Rect, gap: int) -> bool {
    a.x + a.w + gap == b.x && a.y == b.y && a.h == b.h
}

/// Whether a length is the share of another, to less than a pixel.
pub open spec fn about(len: int, whole: int, r: Ratio) -> bool {
    -ONE < len * ONE - whole * r.units < ONE
}

/// Whether a rectangle was cut up towards a side: `fresh` lies at that side of `kept` and
/// takes its share of the room, and the two make up the whole.
#[verifier::opaque]
pub open spec fn cut_towards(whole: Rect, kept: Rect, fresh: Rect, dir: SplitDir, r: Ratio, gap: int) -> bool {
    match dir {
        SplitDir::Up => {
            &&& just_above(fresh, kept, gap)
            &&& fresh.y == whole.y && fresh.x == whole.x && fresh.w == whole.w
            &&& kept.y + kept.h == whole.y + whole.h
            &&& about(fresh.h as int, whole.h - gap, r)
        },
        SplitDir::Down => {
            &&& just_above(kept, fresh, gap)
            &&& kept.y == whole.y && kept.x == whole.x && kept.w == whole.w
            &&& fresh.y + fresh.h == whole.y + whole.h
            &&& about(fresh.h as int, whole.h - gap, r)
        },
        SplitDir::Left => {
            &&& just_left(fresh, kept, gap)
            &&& fresh.x == whole.x && fresh.y == whole.y && fresh.h == whole.h
            &&& kept.x + kept.w == whole.x + whole.w
            &&& about(fresh.w as int, whole.w - gap, r)
        },
        SplitDir::Right => {
            &&& just_left(kept, fresh, gap)
            &&& kept.x == whole.x && kept.y == whole.y && kept.h == whole.h
            &&& fresh.x + fresh.w == whole.x + whole.w
            &&& about(fresh.w as int, whole.w - gap, r)
        },
        SplitDir::Explode => false,
    }
}

/// Whether a rectangle holds two parts with a gap between them, whichever way it is cut.
pub open spec fn holds_two(r: Rect, gap: int) -> bool {
    0 <= gap <= r.w && gap <= r.h && r.x + r.w <= i32::MAX && r.y + r.h <= i32::MAX
}

proof fn lemma_rest_share(avail: nat, r: Ratio)
    requires
        r.wf(),
        avail <= i32::MAX,
    ensures
        0 <= share(avail, r) <= avail,
        0 <= share(avail, crate::ratio::rest_of_one(r)) <= avail,
        about(share(avail, r) as int, avail as int, r),
        about(avail - share(avail, crate::ratio::rest_of_one(r)), avail as int, r),
{
    lemma_rest_near(r);
    let q = crate::ratio::rest_of_one(r);
    law_share_fits(avail, r);
    law_share_fits(avail, q);
    law_share_near(avail, r);
    lemma_share_tight(avail, q);
    let s = share(avail, q);
    assert(-(ONE - 0x20_0000_0000) < (avail - s) * ONE - avail * r.units - (avail * (ONE - r.units - q.units)) < ONE
        - 0x20_0000_0000) by (nonlinear_arith)
        requires
            -(ONE - 0x20_0000_0000) < s * ONE - avail * q.units < ONE - 0x20_0000_0000,
    ;
    assert(-0x20_0000_0000 <= avail * (ONE - r.units - q.units) <= 0x20_0000_0000) by (nonlinear_arith)
        requires
            0 <= avail <= 0x7fff_ffff,
            -64 <= ONE - r.units - q.units <= 64,
    ;
}

proof fn lemma_share_tight(avail: nat, r: Ratio)
    requires
        r.wf(),
        avail <= i32::MAX,
    ensures
        -(ONE - 0x20_0000_0000) < share(avail, r) * ONE - avail * r.units < ONE - 0x20_0000_0000,
{
    let x = avail * r.units as nat;
    lemma_nearest_near(x);
    assert(x <= 0x7fff_ffff * ONE) by (nonlinear_arith)
        requires
            x == avail * r.units as nat,
            avail <= 0x7fff_ffff,
            r.units <= ONE,
    ;
}

/// The number of a new leaf, after a split towards a side.
pub open spec fn fresh_index(t: Tree, dir: SplitDir) -> int {
    if dir == SplitDir::Left || dir == SplitDir::Up {
        t.focused_index() as int
    } else {
        t.focused_index() as int + 1
    }
}

/// Whether `u` is the tree `t` with its focused leaf cut up towards a side: an empty leaf
/// lies at that side of it, and all else is as it was.
pub open spec fn split_towards(t: Tree, u: Tree, dir: SplitDir, fraction: Ratio, area: Rect, gap: int) -> bool {
    let old_rects = t.leaf_rects(area, gap);
    let rects = u.leaf_rects(area, gap);
    let at = t.focused_index() as int;
    let new = fresh_index(t, dir);
    &&& 0 <= at < old_rects.len()
    &&& rects.len() == old_rects.len() + 1
    &&& u.focused_index() == 2 * at + 1 - new
    &&& u.focused_leaf() == t.focused_leaf()
    &&& leaf_at(u, new).windows() == Seq::<WinId>::empty()
    &&& cut_towards(old_rects[at], rects[2 * at + 1 - new], rects[new], dir, fraction, gap)
    &&& rects.take(at) == old_rects.take(at)
    &&& rects.skip(at + 2) == old_rects.skip(at + 1)
}

/// A single leaf that is split.
proof fn lemma_split_one(t: Tree, dir: SplitDir, fraction: Ratio, area: Rect, gap: int)
    requires
        t is Leaf,
        fraction.wf(),
        dir != SplitDir::Explode,
        holds_two(area, gap),
    ensures
        split_towards(t, split_leaf(t, dir, fraction), dir, fraction, area, gap),
{
    reveal(cut_towards);
    reveal_with_fuel(Tree::leaf_rects, 2);
    reveal_with_fuel(Tree::leaves, 2);
    reveal_with_fuel(Tree::focus_nth, 2);
    reveal_with_fuel(Tree::focused_leaf, 2);
    reveal_with_fuel(Tree::focused_index, 2);
    lemma_rest_share(room(area.w as int, gap) as nat, fraction);
    lemma_rest_share(room(area.h as int, gap) as nat, fraction);
    let u = split_leaf(t, dir, fraction);
    assert(t.leaf_rects(area, gap) =~= seq![area]);
    match u {
        Tree::Split { orient, ratio, first, second, .. } => {
            let (a, b) = cut(area, orient, ratio, gap);
            assert(u.leaf_rects(area, gap) =~= seq![a, b]);
        },
        _ => {},
    }
    let rects = u.leaf_rects(area, gap);
    assert(rects.take(0) =~= t.leaf_rects(area, gap).take(0));
    assert(rects.skip(2) =~= t.leaf_rects(area, gap).skip(1));
}

/// A split towards a side makes two leaves of the focused one: an empty one, which comes
/// up at that side and takes its share of the room, and the one that was split, which
/// keeps its windows and the focus. Every other leaf stays where it is.
pub proof fn law_split_side(t: Tree, dir: SplitDir, fraction: Ratio, area: Rect, gap: int)
    requires
        t.wf(),
        fraction.wf(),
        dir != SplitDir::Explode,
        holds_two(t.leaf_rects(area, gap)[t.focused_index() as int], gap),
    ensures
        split_towards(t, t.map_focused(|l: Tree| split_leaf(l, dir, fraction)), dir, fraction, area, gap),
    decreases t,
{
    let f = |l: Tree| split_leaf(l, dir, fraction);
    let u = t.map_focused(f);
    lemma_rects_len(t, area, gap);
    lemma_index_low(t);
    match t {
        Tree::Leaf { windows, selected, layout } => {
            assert(t.leaf_rects(area, gap) =~= seq![area]);
            lemma_split_one(t, dir, fraction, area, gap);
        },
        Tree::Split { orient, ratio, selection, first, second } => {
            let (a, b) = cut(area, orient, ratio, gap);
            lemma_rects_len(*first, a, gap);
            lemma_rects_len(*second, b, gap);
            lemma_index_low(*first);
            lemma_index_low(*second);
            let ra = first.leaf_rects(a, gap);
            let rb = second.leaf_rects(b, gap);
            let at = t.focused_index() as int;
            let new = fresh_index(t, dir);
            if selection == 0 {
                assert(t.leaf_rects(area, gap)[at] == ra[at]);
                law_split_side(*first, dir, fraction, a, gap);
                let v = first.map_focused(f);
                lemma_rects_len(v, a, gap);
                let rv = v.leaf_rects(a, gap);
                let rects = u.leaf_rects(area, gap);
                assert(rects == rv + rb);
                assert(rects[new] == rv[new] && rects[2 * at + 1 - new] == rv[2 * at + 1 - new]);
                assert(rects.take(at) =~= rv.take(at));
                assert(t.leaf_rects(area, gap).take(at) =~= ra.take(at));
                assert(rects.skip(at + 2) =~= rv.skip(at + 2) + rb);
                assert(t.leaf_rects(area, gap).skip(at + 1) =~= ra.skip(at + 1) + rb);
            } else {
                let n = first.leaves() as int;
                assert(t.leaf_rects(area, gap)[at] == rb[at - n]);
                law_split_side(*second, dir, fraction, b, gap);
                let v = second.map_focused(f);
                lemma_rects_len(v, b, gap);
                let rv = v.leaf_rects(b, gap);
                let rects = u.leaf_rects(area, gap);
                assert(rects == ra + rv);
                assert(rects[new] == rv[new - n] && rects[2 * at + 1 - new] == rv[2 * at + 1 - new - n]);
                assert(rects.take(at) =~= ra + rv.take(at - n));
                assert(t.leaf_rects(area, gap).take(at) =~= ra + rb.take(at - n));
                assert(rects.skip(at + 2) =~= rv.skip(at - n + 2));
                assert(t.leaf_rects(area, gap).skip(at + 1) =~= rb.skip(at - n + 1));
            }
        },
    }
}

/// There is a rectangle for each leaf.
proof fn lemma_rects_len(t: Tree, area: Rect, gap: int)
    ensures
        t.leaf_rects(area, gap).len() == t.leaves(),
    decreases t,
{
    match t {
        Tree::Leaf { .. } => {},
        Tree::Split { orient, ratio, first, second, .. } => {
            lemma_rects_len(*first, cut(area, orient, ratio, gap).0, gap);
            lemma_rects_len(*second, cut(area, orient, ratio, gap).1, gap);
        },
    }
}

/// The focused leaf is one of the leaves.
proof fn lemma_index_low(t: Tree)
    ensures
        t.focused_index() < t.leaves(),
    decreases t,
{
    match t {
        Tree::Leaf { .. } => {},
        Tree::Split { first, second, .. } => {
            lemma_index_low(*first);
            lemma_index_low(*second);
        },
    }
}

// --- neighbours -------------------------------------------------------------------------

/// Whether there is a column that both rectangles reach.
pub open spec fn share_column(a: Rect, b: Rect) -> bool {
    exists|x: int| a.x <= x < a.x + a.w && #[trigger] in_columns(b, x)
}

/// Whether a rectangle reaches a column.
pub open spec fn in_columns(r: Rect, x: int) -> bool {
    r.x <= x < r.x + r.w
}

/// Whether there is a row that both rectangles reach.
pub open spec fn share_row(a: Rect, b: Rect) -> bool {
    exists|y: int| a.y <= y < a.y + a.h && #[trigger] in_rows(b, y)
}

/// Whether a rectangle reaches a row.
pub open spec fn in_rows(r: Rect, y: int) -> bool {
    r.y <= y < r.y + r.h
}

/// A rectangle lies up from another exactly where that one lies down from it, and left of
/// it exactly where that one lies right of it.
pub proof fn law_towards_back(a: Rect, b: Rect)
    ensures
        lies_towards(a, b, Dir::Up) == lies_towards(b, a, Dir::Down),
        lies_towards(a, b, Dir::Left) == lies_towards(b, a, Dir::Right),
{
}

/// A rectangle that ends above another lies up from it where they share a column, and
/// neither down from it nor beside it.
pub proof fn law_above_is_up(from: Rect, r: Rect)
    requires
        r.y + r.h <= from.y,
        0 < r.h,
        0 <= from.h,
        0 < r.w,
        0 < from.w,
    ensures
        lies_towards(from, r, Dir::Up) == share_column(from, r),
        lies_towards(r, from, Dir::Down) == share_column(from, r),
        !lies_towards(from, r, Dir::Down),
        !lies_towards(r, from, Dir::Up),
        !lies_towards(from, r, Dir::Left),
        !lies_towards(from, r, Dir::Right),
{
    let x = if from.x > r.x {
        from.x as int
    } else {
        r.x as int
    };
    if from.x < r.x + r.w && r.x < from.x + from.w {
        assert(from.x <= x < from.x + from.w && in_columns(r, x));
    }
}

/// A rectangle that ends left of another lies left of it where they share a row, and
/// neither right of it nor above or below it.
pub proof fn law_beside_is_left(from: Rect, r: Rect)
    requires
        r.x + r.w <= from.x,
        0 < r.w,
        0 <= from.w,
        0 < r.h,
        0 < from.h,
    ensures
        lies_towards(from, r, Dir::Left) == share_row(from, r),
        lies_towards(r, from, Dir::Right) == share_row(from, r),
        !lies_towards(from, r, Dir::Right),
        !lies_towards(r, from, Dir::Left),
        !lies_towards(from, r, Dir::Up),
        !lies_towards(from, r, Dir::Down),
{
    let y = if from.y > r.y {
        from.y as int
    } else {
        r.y as int
    };
    if from.y < r.y + r.h && r.y < from.y + from.h {
        assert(from.y <= y < from.y + from.h && in_rows(r, y));
    }
}

/// The side that is opposite.
pub open spec fn across(dir: Dir) -> Dir {
    match dir {
        Dir::Left => Dir::Right,
        Dir::Right => Dir::Left,
        Dir::Up => Dir::Down,
        Dir::Down => Dir::Up,
    }
}

/// The side that a split is towards.
pub open spec fn side(dir: SplitDir) -> Dir {
    match dir {
        SplitDir::Left => Dir::Left,
        SplitDir::Right => Dir::Right,
        SplitDir::Up => Dir::Up,
        _ => Dir::Down,
    }
}

/// Whether a rectangle has any points.
pub open spec fn seen(r: Rect) -> bool {
    0 < r.w && 0 < r.h
}

/// The neighbour among two rectangles.
proof fn lemma_two(rects: Seq<Rect>, from: int, dir: Dir)
    requires
        rects.len() == 2,
        0 <= from < 2,
    ensures
        nearest_leaf(rects, from, dir, 2) == (if lies_towards(rects[from], rects[1 - from], dir) {
            Some(1 - from)
        } else {
            None
        }),
{
    reveal_with_fuel(nearest_leaf, 3);
}

/// Of a leaf that was split in two, the new part lies at the side of the split: the focus
/// goes there from the old part towards that side, and back from it the other way, and no
/// other way leads anywhere.
pub proof fn law_focus_fresh(t: Tree, dir: SplitDir, fraction: Ratio, area: Rect, gap: int)
    requires
        t is Leaf,
        t.wf(),
        fraction.wf(),
        dir != SplitDir::Explode,
        holds_two(area, gap),
        seen(split_leaf(t, dir, fraction).leaf_rects(area, gap)[0]),
        seen(split_leaf(t, dir, fraction).leaf_rects(area, gap)[1]),
    ensures
        ({
            let u = split_leaf(t, dir, fraction);
            let new = fresh_index(t, dir);
            let v = focus_towards(u, side(dir), area, gap);
            &&& u.focused_leaf() == t
            &&& v.focused_index() == new
            &&& v.focused_leaf().windows().len() == 0
            &&& v.windows() == t.windows()
            &&& focus_towards(v, across(side(dir)), area, gap).focused_index() == 1 - new
            &&& forall|d: Dir|
                d != side(dir) ==> (#[trigger] focus_towards(u, d, area, gap)) == u
            &&& forall|d: Dir|
                d != across(side(dir)) ==> (#[trigger] focus_towards(v, d, area, gap)) == v
        }),
{
    lemma_split_one(t, dir, fraction, area, gap);
    reveal(cut_towards);
    reveal_with_fuel(Tree::leaf_rects, 2);
    reveal_with_fuel(Tree::leaves, 2);
    reveal_with_fuel(Tree::focus_nth, 2);
    reveal_with_fuel(Tree::focused_leaf, 2);
    reveal_with_fuel(Tree::focused_index, 2);
    reveal_with_fuel(Tree::windows, 2);
    let u = split_leaf(t, dir, fraction);
    let new = fresh_index(t, dir);
    let rects = u.leaf_rects(area, gap);
    let v = u.focus_nth(new);
    assert(t.leaf_rects(area, gap) =~= seq![area]);
    assert(rects.len() == 2);
    assert(v.leaf_rects(area, gap) =~= rects);
    let (kept, fresh) = (rects[1 - new], rects[new]);
    assert(u.windows() =~= t.windows());
    if dir == SplitDir::Up {
        law_above_is_up(kept, fresh);
        assert(in_columns(fresh, kept.x as int));
    } else if dir == SplitDir::Down {
        law_above_is_up(fresh, kept);
        assert(in_columns(kept, fresh.x as int));
    } else if dir == SplitDir::Left {
        law_beside_is_left(kept, fresh);
        assert(in_rows(fresh, kept.y as int));
    } else {
        law_beside_is_left(fresh, kept);
        assert(in_rows(kept, fresh.y as int));
    }
    assert forall|d: Dir| lies_towards(kept, fresh, d) == (d == side(dir)) && lies_towards(fresh, kept, d) == (d
        == across(side(dir))) by {
        law_towards_back(kept, fresh);
        law_towards_back(fresh, kept);
    }
    assert forall|d: Dir| d != side(dir) implies (#[trigger] focus_towards(u, d, area, gap)) == u by {
        lemma_two(rects, 1 - new, d);
    }
    lemma_two(rects, 1 - new, side(dir));
    assert(focus_towards(u, side(dir), area, gap) == v);
    assert forall|d: Dir| d != across(side(dir)) implies (#[trigger] focus_towards(v, d, area, gap)) == v by {
        lemma_two(rects, new, d);
    }
    lemma_two(rects, new, across(side(dir)));
}

/// The focus goes to a leaf whose rectangle lies in the direction, to none that is farther
/// than another that does, and only stays where there is none. It moves no window.
pub proof fn law_focus_towards(t: Tree, dir: Dir, area: Rect, gap: int)
    requires
        t.wf(),
    ensures
        ({
            let u = focus_towards(t, dir, area, gap);
            let rects = t.leaf_rects(area, gap);
            let from = rects[t.focused_index() as int];
            let to = rects[u.focused_index() as int];
            &&& u.windows() == t.windows()
            &&& u != t ==> lies_towards(from, to, dir)
            &&& forall|j: int|
                0 <= j < rects.len() && j != t.focused_index() && lies_towards(
                    from,
                    #[trigger] rects[j],
                    dir,
                ) ==> u.focused_index() != t.focused_index() && apart_by(from, to) <= apart_by(from, rects[j])
        }),
{
    let rects = t.leaf_rects(area, gap);
    lemma_rects_len(t, area, gap);
    law_nearest(rects, t.focused_index() as int, dir, rects.len());
    if t.neighbor(dir, area, gap) is Some {
        law_focus_nth(t, t.neighbor(dir, area, gap)->0);
    }
}

/// Half of a length, without its fraction.
pub open spec fn half(n: i32) -> int {
    if n >= 0 {
        n as int / 2
    } else {
        -((-n) as int / 2)
    }
}

/// The square of the distance between the middles of two rectangles, each middle rounded
/// towards the corner.
pub open spec fn apart_by(a: Rect, b: Rect) -> int {
    let dx = (b.x + half(b.w)) - (a.x + half(a.w));
    let dy = (b.y + half(b.h)) - (a.y + half(a.h));
    dx * dx + dy * dy
}

/// A window is shifted to a leaf that lies in the direction and keeps the focus there; no
/// other window leaves its leaf. Where no leaf lies there, nothing is moved.
pub proof fn law_shift_towards(t: Tree, dir: Dir, area: Rect, gap: int)
    requires
        t.wf(),
        t.focused_window() is Some,
    ensures
        ({
            let u = shift_towards(t, dir, area, gap);
            let rects = t.leaf_rects(area, gap);
            let from = rects[t.focused_index() as int];
            let to = rects[u.focused_index() as int];
            &&& population(u) == population(t)
            &&& u.focused_window() == t.focused_window()
            &&& u.focused_index() == focus_towards(t, dir, area, gap).focused_index()
            &&& u != t ==> lies_towards(from, to, dir)
            &&& (exists|j: int|
                0 <= j < rects.len() && j != t.focused_index() && lies_towards(
                    from,
                    #[trigger] rects[j],
                    dir,
                )) ==> u.focused_index() != t.focused_index()
        }),
{
    let rects = t.leaf_rects(area, gap);
    lemma_rects_len(t, area, gap);
    law_nearest(rects, t.focused_index() as int, dir, rects.len());
    if t.neighbor(dir, area, gap) is Some {
        let n = t.neighbor(dir, area, gap)->0;
        crate::frame_laws::law_shift(t, n);
        law_focus_nth(t, n);
    }
}

/// The words for a side lead there: the rectangle that `up` leads to ends above the other,
/// and so on round.
pub proof fn law_side_words(from: Rect, r: Rect)
    requires
        seen(from),
        seen(r),
    ensures
        dir_named("up"@) is Some && (r.y + r.h <= from.y && r.x == from.x ==> lies_towards(
            from,
            r,
            dir_named("up"@)->0,
        )),
        dir_named("down"@) is Some && (from.y + from.h <= r.y && r.x == from.x ==> lies_towards(
            from,
            r,
            dir_named("down"@)->0,
        )),
        dir_named("left"@) is Some && (r.x + r.w <= from.x && r.y == from.y ==> lies_towards(
            from,
            r,
            dir_named("left"@)->0,
        )),
        dir_named("right"@) is Some && (from.x + from.w <= r.x && r.y == from.y ==> lies_towards(
            from,
            r,
            dir_named("right"@)->0,
        )),
{
    reveal_strlit("up");
    reveal_strlit("down");
    reveal_strlit("left");
    reveal_strlit("right");
    assert("up"@.len() == 2 && "down"@.len() == 4 && "left"@.len() == 4 && "right"@.len() == 5);
    assert("down"@[0] != "left"@[0]);
}

/// The words for a split say where the empty leaf comes up.
pub proof fn law_split_words(t: Tree, fraction: Ratio, area: Rect, gap: int)
    requires
        t is Leaf,
        fraction.wf(),
        holds_two(area, gap),
    ensures
        forall|word: Seq<char>| #[trigger]
            is_side_word(word) ==> split_named(word) is Some && ({
                let u = split_leaf(t, split_named(word)->0, fraction);
                let rects = u.leaf_rects(area, gap);
                let kept = rects[u.focused_index() as int];
                let fresh = rects[1 - u.focused_index()];
                &&& u.focused_leaf() == t
                &&& word == "up"@ || word == "top"@ ==> just_above(fresh, kept, gap)
                &&& word == "down"@ || word == "bottom"@ || word == "vertical"@ ==> just_above(kept, fresh, gap)
                &&& word == "left"@ ==> just_left(fresh, kept, gap)
                &&& word == "right"@ || word == "horizontal"@ ==> just_left(kept, fresh, gap)
            }),
{
    reveal_strlit("up");
    reveal_strlit("top");
    reveal_strlit("down");
    reveal_strlit("bottom");
    reveal_strlit("vertical");
    reveal_strlit("left");
    reveal_strlit("right");
    reveal_strlit("horizontal");
    assert("up"@.len() == 2 && "top"@.len() == 3 && "down"@.len() == 4 && "bottom"@.len() == 6 && "vertical"@.len()
        == 8 && "left"@.len() == 4 && "right"@.len() == 5 && "horizontal"@.len() == 10);
    assert("down"@[0] != "left"@[0]);
    assert forall|word: Seq<char>| #[trigger] is_side_word(word) implies split_named(word) is Some && ({
        let u = split_leaf(t, split_named(word)->0, fraction);
        let rects = u.leaf_rects(area, gap);
        let kept = rects[u.focused_index() as int];
        let fresh = rects[1 - u.focused_index()];
        &&& u.focused_leaf() == t
        &&& word == "up"@ || word == "top"@ ==> just_above(fresh, kept, gap)
        &&& word == "down"@ || word == "bottom"@ || word == "vertical"@ ==> just_above(kept, fresh, gap)
        &&& word == "left"@ ==> just_left(fresh, kept, gap)
        &&& word == "right"@ || word == "horizontal"@ ==> just_left(kept, fresh, gap)
    }) by {
        let dir = split_named(word)->0;
        lemma_split_one(t, dir, fraction, area, gap);
        reveal(cut_towards);
    }
}

/// Whether a word names a side to split towards.
pub open spec fn is_side_word(word: Seq<char>) -> bool {
    word == "up"@ || word == "top"@ || word == "down"@ || word == "bottom"@ || word == "vertical"@ || word
        == "left"@ || word == "right"@ || word == "horizontal"@
}

// --- resizing ---------------------------------------------------------------------------

/// A share of units held between 0.05 and 0.95.
pub open spec fn held(units: int) -> int {
    let low = crate::ratio::LEAST * FINE;
    let high = crate::ratio::MOST * FINE;
    if units < low {
        low
    } else if units > high {
        high
    } else {
        units
    }
}

/// A share that is nudged is larger or smaller by that much, held in range, but for what a double cannot tell.
proof fn lemma_nudged(r: Ratio, neg: bool, units: u128, minus: bool)
    requires
        r.wf(),
        units <= 2 * crate::double::WHOLE,
    ensures
        ({
            let q = nudged(r, Double::Mag { neg, units }, minus);
            let sum = r.units * FINE + if neg == minus {
                units as int
            } else {
                -(units as int)
            };
            &&& q.wf()
            &&& -100 * FINE <= q.units * FINE - held(sum) <= 100 * FINE
        }),
{
    let sum = r.units * FINE + if neg == minus {
        units as int
    } else {
        -(units as int)
    };
    if sum > 0 {
        lemma_nearest_near(sum as nat);
        let n = nearest(sum as nat, 1);
        assert(sum <= 3 * crate::double::WHOLE) by {
            assert(r.units * FINE <= crate::double::WHOLE) by (nonlinear_arith)
                requires
                    r.units <= 144115188075855872,
                    FINE == 18014398509481984,
                    crate::double::WHOLE == 2596148429267413814265248164610048,
            ;
        }
    }
}

/// How much of one the part has that the focus is in.
pub open spec fn focused_share(t: Tree) -> int {
    match t {
        Tree::Split { ratio, selection, .. } => if selection == 0 {
            ratio.units as int
        } else {
            ONE - ratio.units
        },
        _ => ONE as int,
    }
}

/// The part of a tree that the focus is in.
pub open spec fn focused_part(t: Tree) -> Tree {
    match t {
        Tree::Split { selection, first, second, .. } => if selection == 0 {
            *first
        } else {
            *second
        },
        _ => t,
    }
}

/// Resizing to the right or down gives the part that the focus is in so much more of the
/// room that it shares with its sibling, and resizing to the left or up so much less, held
/// between 0.05 and 0.95. It is the border nearest to the focused leaf that moves, of those
/// across the direction; all others stay.
pub proof fn law_resize_side(t: Tree, dir: Dir, neg: bool, units: u128)
    requires
        t.wf(),
        units <= 2 * crate::double::WHOLE,
    ensures
        ({
            let delta = Double::Mag { neg, units };
            let inner = focused_part(t).resize(dir, delta);
            let grows = (dir == Dir::Right || dir == Dir::Down) == !neg;
            let sideways = dir == Dir::Left || dir == Dir::Right;
            t matches Tree::Split { orient, ratio, selection, first, second } ==> match t.resize(dir, delta) {
                None => inner is None && sideways == (orient == crate::frame::Orientation::Vertical),
                Some(u) => {
                    &&& u is Split
                    &&& u->orient == orient
                    &&& u->selection == selection
                    &&& selection == 0 ==> u->second == second
                    &&& selection == 1 ==> u->first == first
                    &&& inner is Some ==> u->ratio == ratio && focused_part(u) == inner->0
                    &&& inner is None ==> {
                        &&& focused_part(u) == focused_part(t)
                        &&& sideways == (orient == crate::frame::Orientation::Horizontal)
                        &&& -128 * FINE <= focused_share(u) * FINE - held(
                            focused_share(t) * FINE + if grows {
                                units as int
                            } else {
                                -(units as int)
                            },
                        ) <= 128 * FINE
                    }
                },
            }
        }),
{
    match t {
        Tree::Leaf { .. } => {},
        Tree::Split { orient, ratio, selection, first, second } => {
            let forward = dir == Dir::Right || dir == Dir::Down;
            lemma_nudged(ratio, neg, units, forward != (selection == 0));
        },
    }
}

/// What is no number moves no border.
pub proof fn law_resize_nan(t: Tree, dir: Dir)
    ensures
        t.resize(dir, Double::Nan) matches Some(u) ==> u == t,
    decreases t,
{
    match t {
        Tree::Leaf { .. } => {},
        Tree::Split { first, second, .. } => {
            law_resize_nan(*first, dir);
            law_resize_nan(*second, dir);
        },
    }
}

} // verus!
