//! Outputs of the display, and the monitors that follow them.

use vstd::prelude::*;
use crate::monitor::{divide, no_insets, Desk, Rect, Screen};
use crate::reply::{ok, ok_text};
use crate::state::{Output, State, World};
use crate::text::Text;
use crate::tree::{middle_x, middle_y};

verus! {

/// The rectangles of the outputs that have a size.
pub open spec fn sized(outputs: Seq<Output>) -> Seq<Rect>
    decreases outputs.len(),
{
    if outputs.len() == 0 {
        Seq::empty()
    } else {
        let front = sized(outputs.drop_last());
        let g = outputs.last().geo;
        if g.w > 0 && g.h > 0 {
            front.push(g)
        } else {
            front
        }
    }
}

/// Whether one corner comes before another: further left, or as far left and higher.
pub open spec fn corner_before(a: Rect, b: Rect) -> bool {
    a.x < b.x || (a.x == b.x && a.y < b.y)
}

/// The place among `rs` where a rectangle goes: before the first that it comes before.
pub open spec fn corner_place(rs: Seq<Rect>, r: Rect) -> int
    decreases rs.len(),
{
    if rs.len() == 0 || corner_before(r, rs[0]) {
        0
    } else {
        1 + corner_place(rs.drop_first(), r)
    }
}

/// The rectangles in the order of their corners.
pub open spec fn by_corner(rs: Seq<Rect>) -> Seq<Rect>
    decreases rs.len(),
{
    if rs.len() == 0 {
        rs
    } else {
        let front = by_corner(rs.drop_last());
        front.insert(corner_place(front, rs.last()), rs.last())
    }
}

/// The monitors made to follow the outputs, of which `before` had a size so far: where
/// there are no monitors yet, or where they follow the outputs and the number of those
/// has changed.
pub open spec fn follow_outputs(before: nat, w: World) -> World {
    let rs = sized(w.outputs);
    if rs.len() == 0 || (w.desk.list.len() > 0 && !(w.auto_monitors && rs.len() != before)) {
        w
    } else {
        World { desk: w.desk.reset(by_corner(rs)), ..w }
    }
}

/// `detect_monitors`: a monitor for each output, which from then on do not follow them.
pub open spec fn detect_monitors(w: World) -> (World, Text) {
    let rs = sized(w.outputs);
    let desk = if rs.len() == 0 {
        Desk { list: Seq::empty(), ..w.desk }
    } else {
        w.desk.reset(by_corner(rs))
    };
    ((World { desk, auto_monitors: false, ..w }).manage(), ok_text())
}

impl State {
    /// The rectangles of the outputs that have a size, in the order of their corners.
    fn sized_outputs(&self) -> (r: Vec<Rect>)
        ensures
            r@ == by_corner(sized(self@.outputs)),
            r@.len() == sized(self@.outputs).len(),
    {
        let ghost all = self.outputs@;
        let mut r: Vec<Rect> = Vec::new();
        let mut i: usize = 0;
        assert(all.take(0) =~= Seq::<Output>::empty());
        while i < self.outputs.len()
            invariant
                i <= self.outputs@.len(),
                all == self.outputs@,
                r@ == by_corner(sized(all.take(i as int))),
                r@.len() == sized(all.take(i as int)).len(),
            decreases self.outputs@.len() - i,
        {
            assert(all.take(i + 1).drop_last() =~= all.take(i as int));
            assert(all.take(i + 1).last() == all[i as int]);
            let g = self.outputs[i].geo;
            if g.w > 0 && g.h > 0 {
                let ghost front = r@;
                let mut at: usize = 0;
                assert(front.skip(0) =~= front);
                while at < r.len() && !(g.x < r[at].x || (g.x == r[at].x && g.y < r[at].y))
                    invariant
                        at <= r@.len(),
                        front == r@,
                        corner_place(front, g) == at + corner_place(front.skip(at as int), g),
                    decreases r@.len() - at,
                {
                    assert(front.skip(at as int)[0] == r@[at as int]);
                    assert(front.skip(at as int).drop_first() =~= front.skip(at + 1));
                    at += 1;
                }
                proof {
                    if at < r@.len() {
                        assert(front.skip(at as int)[0] == r@[at as int]);
                    }
                    let before = sized(all.take(i as int));
                    let now = sized(all.take(i + 1));
                    assert(now.drop_last() =~= before);
                    assert(now.last() == g);
                }
                r.insert(at, g);
            }
            i += 1;
        }
        assert(all.take(i as int) =~= all);
        r
    }

    /// Makes the monitors follow the outputs, of which `before` had a size so far.
    pub fn maybe_detect_monitors(&mut self, before: usize)
        requires
            old(self)@.wf(),
        ensures
            final(self)@ == follow_outputs(before as nat, old(self)@),
            final(self)@.wf(),
    {
        let rects = self.sized_outputs();
        if rects.len() == 0 {
            return;
        }
        let count_changed: bool = self.auto_monitors && rects.len() != before;
        if self.monitors.list.len() > 0 && !count_changed {
            return;
        }
        self.monitors.set_monitors(rects.as_slice());
    }

    /// The output that lies under the middle of a monitor, or else the first.
    pub fn output_for_monitor(&self, mi: usize) -> (r: Option<u64>)
        requires
            mi < self@.desk.list.len(),
        ensures
            r == output_under(self@.outputs, self@.desk.list[mi as int].rect),
    {
        let rect = self.monitors.list[mi].rect;
        let cx: i128 = rect.x as i128 + divide(rect.w as i128, 2);
        let cy: i128 = rect.y as i128 + divide(rect.h as i128, 2);
        let ghost all = self.outputs@;
        let mut i: usize = 0;
        assert(all.skip(0) =~= all);
        while i < self.outputs.len()
            invariant
                i <= self.outputs@.len(),
                all == self.outputs@,
                rect == self@.desk.list[mi as int].rect,
                cx == middle_x(rect),
                cy == middle_y(rect),
                output_place(all, cx as int, cy as int) == i + output_place(
                    all.skip(i as int),
                    cx as int,
                    cy as int,
                ),
            decreases self.outputs@.len() - i,
        {
            assert(all.skip(i as int)[0] == all[i as int]);
            assert(all.skip(i as int).drop_first() =~= all.skip(i + 1));
            let g = self.outputs[i].geo;
            if rect_holds(g, cx, cy) {
                return Some(self.outputs[i].id);
            }
            i += 1;
        }
        if self.outputs.len() > 0 {
            Some(self.outputs[0].id)
        } else {
            None
        }
    }

    /// A new output, without a size yet.
    pub fn output_added(&mut self, id: u64)
        requires
            old(self)@.wf(),
        ensures
            final(self)@ == (World {
                outputs: old(self)@.outputs.push(
                    Output { id, geo: Rect { x: 0, y: 0, w: 0, h: 0 }, wl_name: None },
                ),
                ..old(self)@
            }).manage(),
            final(self)@.wf(),
    {
        self.outputs.push(Output { id, geo: Rect::new(0, 0, 0, 0), wl_name: None });
        self.request_manage();
    }

    /// The place of an output.
    fn find_output(&self, id: u64) -> (r: usize)
        ensures
            r == out_place(self@.outputs, id),
            r <= self.outputs@.len(),
    {
        let ghost all = self.outputs@;
        let mut i: usize = 0;
        assert(all.skip(0) =~= all);
        while i < self.outputs.len() && self.outputs[i].id != id
            invariant
                i <= self.outputs@.len(),
                all == self.outputs@,
                out_place(all, id) == i + out_place(all.skip(i as int), id),
            decreases self.outputs@.len() - i,
        {
            assert(all.skip(i as int)[0] == all[i as int]);
            assert(all.skip(i as int).drop_first() =~= all.skip(i + 1));
            i += 1;
        }
        proof {
            if i < all.len() {
                assert(all.skip(i as int)[0] == all[i as int]);
            }
        }
        i
    }

    /// An output has another size.
    pub fn output_sized(&mut self, id: u64, w: i32, h: i32)
        requires
            old(self)@.wf(),
        ensures
            final(self)@ == follow_outputs(
                sized(old(self)@.outputs).len(),
                with_output(old(self)@, id, |o: Output| Output { geo: Rect { w, h, ..o.geo }, ..o }),
            ),
            final(self)@.wf(),
    {
        let before: usize = self.sized_outputs().len();
        let i: usize = self.find_output(id);
        if i < self.outputs.len() {
            let o = self.outputs[i];
            self.outputs.set(i, Output { id: o.id, geo: Rect::new(o.geo.x, o.geo.y, w, h), wl_name: o.wl_name });
        }
        self.maybe_detect_monitors(before);
    }

    /// An output is at another place.
    pub fn output_moved(&mut self, id: u64, x: i32, y: i32)
        requires
            old(self)@.wf(),
        ensures
            final(self)@ == follow_outputs(
                sized(old(self)@.outputs).len(),
                with_output(old(self)@, id, |o: Output| Output { geo: Rect { x, y, ..o.geo }, ..o }),
            ),
            final(self)@.wf(),
    {
        let before: usize = self.sized_outputs().len();
        let i: usize = self.find_output(id);
        if i < self.outputs.len() {
            let o = self.outputs[i];
            self.outputs.set(i, Output { id: o.id, geo: Rect::new(x, y, o.geo.w, o.geo.h), wl_name: o.wl_name });
        }
        self.maybe_detect_monitors(before);
    }

    /// The display's number for an output is known.
    pub fn output_named(&mut self, id: u64, name: u32)
        requires
            old(self)@.wf(),
        ensures
            final(self)@ == with_output(
                old(self)@,
                id,
                |o: Output| Output { wl_name: Some(name), ..o },
            ),
            final(self)@.wf(),
    {
        let i: usize = self.find_output(id);
        if i < self.outputs.len() {
            let o = self.outputs[i];
            self.outputs.set(i, Output { id: o.id, geo: o.geo, wl_name: Some(name) });
        }
    }

    /// An output is gone.
    pub fn output_removed(&mut self, id: u64)
        requires
            old(self)@.wf(),
        ensures
            final(self)@ == follow_outputs(
                sized(old(self)@.outputs).len(),
                without_output(old(self)@, id),
            ).manage(),
            final(self)@.wf(),
    {
        let before: usize = self.sized_outputs().len();
        let i: usize = self.find_output(id);
        if i < self.outputs.len() {
            self.outputs.remove(i);
        }
        self.maybe_detect_monitors(before);
        self.request_manage();
    }
}

/// The place of an output; the number of them where it is not there.
pub open spec fn out_place(outputs: Seq<Output>, id: u64) -> int
    decreases outputs.len(),
{
    if outputs.len() == 0 || outputs[0].id == id {
        0
    } else {
        1 + out_place(outputs.drop_first(), id)
    }
}

/// An output replaced by what `f` makes of it, where it is there.
pub open spec fn with_output(w: World, id: u64, f: spec_fn(Output) -> Output) -> World {
    let i = out_place(w.outputs, id);
    if i < w.outputs.len() {
        World { outputs: w.outputs.update(i, f(w.outputs[i])), ..w }
    } else {
        w
    }
}

/// An output taken out, where it is there.
pub open spec fn without_output(w: World, id: u64) -> World {
    let i = out_place(w.outputs, id);
    if i < w.outputs.len() {
        World { outputs: w.outputs.remove(i), ..w }
    } else {
        w
    }
}

/// Whether a point lies in a rectangle.
pub open spec fn in_rect(r: Rect, x: int, y: int) -> bool {
    r.x <= x < r.x + r.w && r.y <= y < r.y + r.h
}

/// Whether a point lies in a rectangle.
pub fn rect_holds(r: Rect, x: i128, y: i128) -> (b: bool)
    ensures
        b == in_rect(r, x as int, y as int),
{
    r.x as i128 <= x && x < r.x as i128 + r.w as i128 && r.y as i128 <= y && y < r.y as i128
        + r.h as i128
}

/// The first output that holds a point; the number of them where none does.
pub open spec fn output_place(outputs: Seq<Output>, x: int, y: int) -> int
    decreases outputs.len(),
{
    if outputs.len() == 0 || in_rect(outputs[0].geo, x, y) {
        0
    } else {
        1 + output_place(outputs.drop_first(), x, y)
    }
}

/// The output under the middle of a rectangle, or else the first.
pub open spec fn output_under(outputs: Seq<Output>, r: Rect) -> Option<u64> {
    let p = output_place(outputs, middle_x(r), middle_y(r));
    if p < outputs.len() {
        Some(outputs[p].id)
    } else if outputs.len() > 0 {
        Some(outputs[0].id)
    } else {
        None
    }
}

/// `detect_monitors`.
pub fn cmd_detect_monitors(state: &mut State) -> (r: String)
    requires
        old(state)@.wf(),
    ensures
        (final(state)@, r@) == detect_monitors(old(state)@),
        final(state)@.wf(),
{
    let rects = state.sized_outputs();
    if rects.len() == 0 {
        state.monitors.list.clear();
        assert(state.monitors@.list =~= Seq::empty());
    } else {
        state.monitors.set_monitors(rects.as_slice());
    }
    state.auto_monitors = false;
    state.request_manage();
    ok()
}

/// Monitors that were set, or detected on command, do not follow the outputs.
pub proof fn law_own_topology_stays(before: nat, w: World)
    requires
        !w.auto_monitors,
        w.desk.list.len() > 0,
    ensures
        follow_outputs(before, w) == w,
        !detect_monitors(w).0.auto_monitors,
{
}

proof fn lemma_corner_place(rs: Seq<Rect>, r: Rect)
    ensures
        0 <= corner_place(rs, r) <= rs.len(),
    decreases rs.len(),
{
    if rs.len() > 0 {
        lemma_corner_place(rs.drop_first(), r);
    }
}

proof fn lemma_by_corner(rs: Seq<Rect>)
    ensures
        by_corner(rs).len() == rs.len(),
        by_corner(rs).to_multiset() == rs.to_multiset(),
    decreases rs.len(),
{
    broadcast use vstd::seq_lib::group_to_multiset_ensures;

    if rs.len() > 0 {
        let front = by_corner(rs.drop_last());
        lemma_by_corner(rs.drop_last());
        lemma_corner_place(front, rs.last());
        assert(rs =~= rs.drop_last().push(rs.last()));
    }
}

/// While the monitors follow the outputs, plugging or unplugging an output makes them
/// anew, one base monitor per output, whatever monitors there were.
pub proof fn law_hotplug(before: nat, w: World)
    requires
        w.auto_monitors,
        sized(w.outputs).len() > 0,
        sized(w.outputs).len() != before,
    ensures
        ({
            let list = follow_outputs(before, w).desk.list;
            &&& list.len() == sized(w.outputs).len()
            &&& list.map_values(|s: Screen| s.rect).to_multiset() == sized(w.outputs).to_multiset()
            &&& forall|i: int|
                0 <= i < list.len() ==> {
                    let m = #[trigger] list[i];
                    m.name is None && m.z == 0 && m.pad == no_insets() && m.locked_tag is None
                }
        }),
{
    let rs = by_corner(sized(w.outputs));
    lemma_by_corner(sized(w.outputs));
    assert(follow_outputs(before, w).desk.list.map_values(|s: Screen| s.rect) =~= rs);
}

} // verus!
