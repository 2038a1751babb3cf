//! Commands on monitors.

use vstd::prelude::*;
use crate::monitor::{find_screen, rect_text, selector_text, Desk, Insets, MonitorSel, Rect, Screen};
use crate::number::{parse_i32, push_u64, show, signed32};
use crate::reply::{err, err3, err_about, err_text, ok, ok_text, parse_tag, read_steps, steps, tag_text};
use crate::state::{State, World};
use crate::text::Text;

verus! {

/// The first argument that is no rectangle; their number where all are.
pub open spec fn bad_rect(a: Seq<Text>) -> int
    decreases a.len(),
{
    if a.len() == 0 || rect_text(a[0]) is None {
        0
    } else {
        1 + bad_rect(a.drop_first())
    }
}

/// The rectangles that arguments write.
pub open spec fn rects_of(a: Seq<Text>) -> Seq<Rect> {
    a.map_values(|s: Text| rect_text(s)->0)
}

/// `set_monitors <rect>...`: the monitors replaced, and no longer made to follow the
/// outputs.
pub open spec fn set_monitors(w: World, a: Seq<Text>) -> (World, Text) {
    if a.len() == 0 {
        (w, err_text("set_monitors: expected at least one WxH+X+Y rect"@))
    } else if bad_rect(a) < a.len() {
        (w, err_about("set_monitors: bad rect '"@, a[bad_rect(a)], "'"@))
    } else {
        ((World { desk: w.desk.reset(rects_of(a)), auto_monitors: false, ..w }).manage(), ok_text())
    }
}

pub fn cmd_set_monitors(state: &mut State, a: &[String]) -> (r: String)
    requires
        old(state)@.wf(),
    ensures
        (final(state)@, r@) == set_monitors(old(state)@, a.deep_view()),
        final(state)@.wf(),
{
    let ghost all = a.deep_view();
    if a.len() == 0 {
        return err("set_monitors: expected at least one WxH+X+Y rect");
    }
    let mut rects: Vec<Rect> = Vec::new();
    let mut i: usize = 0;
    assert(all.skip(0) =~= all);
    while i < a.len()
        invariant
            i <= a@.len(),
            all == a.deep_view(),
            a@.len() > 0,
            bad_rect(all) == i + bad_rect(all.skip(i as int)),
            rects@ == rects_of(all).take(i as int),
            state@ == old(state)@,
            state@.wf(),
        decreases a@.len() - i,
    {
        assert(all.skip(i as int)[0] == a@[i as int]@);
        assert(all.skip(i as int).drop_first() =~= all.skip(i + 1));
        match Rect::parse(a[i].as_str()) {
            Some(rect) => {
                rects.push(rect);
                assert(rects@ =~= rects_of(all).take(i + 1));
            },
            None => {
                return err3("set_monitors: bad rect '", a[i].as_str(), "'");
            },
        }
        i += 1;
    }
    assert(rects@ =~= rects_of(all));
    state.monitors.set_monitors(rects.as_slice());
    state.auto_monitors = false;
    state.request_manage();
    ok()
}

/// `add_monitor <rect> <tag> [name]`: one more monitor; its number is the reply.
pub open spec fn add_monitor(w: World, a: Seq<Text>) -> (World, Text) {
    if a.len() < 2 {
        (w, err_text("add_monitor: expected <rect> <tag> [name]"@))
    } else if rect_text(a[0]) is None {
        (w, err_about("add_monitor: bad rect '"@, a[0], "'"@))
    } else if tag_text(a[1]) is None {
        (w, err_about("add_monitor: bad tag '"@, a[1], "'"@))
    } else {
        let name = if a.len() > 2 {
            Some(a[2])
        } else {
            None
        };
        (
            (World {
                desk: w.desk.with_monitor(rect_text(a[0])->0, tag_text(a[1])->0, name),
                ..w
            }).manage(),
            "monitor "@ + show(w.desk.next_id as nat) + "\n"@,
        )
    }
}

pub fn cmd_add_monitor(state: &mut State, a: &[String]) -> (r: String)
    requires
        old(state)@.wf(),
    ensures
        (final(state)@, r@) == add_monitor(old(state)@, a.deep_view()),
        final(state)@.wf(),
{
    let ghost all = a.deep_view();
    if a.len() < 2 {
        return err("add_monitor: expected <rect> <tag> [name]");
    }
    assert(all[0] == a@[0]@ && all[1] == a@[1]@);
    match (Rect::parse(a[0].as_str()), parse_tag(a[1].as_str())) {
        (None, _) => err3("add_monitor: bad rect '", a[0].as_str(), "'"),
        (_, None) => err3("add_monitor: bad tag '", a[1].as_str(), "'"),
        (Some(rect), Some(tag)) => {
            let name: Option<String> = if a.len() > 2 {
                Some(a[2].clone())
            } else {
                None
            };
            assert(a@.len() > 2 ==> all[2] == a@[2]@);
            let id = state.monitors.add_monitor(rect, tag, name);
            state.request_manage();
            let mut r = "monitor ".to_owned();
            push_u64(&mut r, id.0 as u64);
            r.append("\n");
            r
        },
    }
}

/// A command on one monitor: what it makes of the desk, where the monitor is there.
pub open spec fn on_monitor(
    w: World,
    a: Seq<Text>,
    missing: Text,
    unknown: Text,
    f: spec_fn(Desk, int) -> Desk,
) -> (World, Text) {
    if a.len() == 0 {
        (w, err_text(missing))
    } else {
        match find_screen(w.desk.list, selector_text(a[0])) {
            Some(i) => ((World { desk: f(w.desk, i), ..w }).manage(), ok_text()),
            None => (w, err_about(unknown, a[0], "'"@)),
        }
    }
}

/// `raise_monitor <monitor>`.
pub open spec fn raise_monitor(w: World, a: Seq<Text>) -> (World, Text) {
    on_monitor(
        w,
        a,
        "raise_monitor: expected a monitor selector"@,
        "raise_monitor: no such monitor '"@,
        |d: Desk, i: int| d.raised(i),
    )
}

pub fn cmd_raise_monitor(state: &mut State, a: &[String]) -> (r: String)
    requires
        old(state)@.wf(),
    ensures
        (final(state)@, r@) == raise_monitor(old(state)@, a.deep_view()),
        final(state)@.wf(),
{
    if a.len() == 0 {
        return err("raise_monitor: expected a monitor selector");
    }
    assert(a.deep_view()[0] == a@[0]@);
    if state.monitors.raise_monitor(&MonitorSel::parse(a[0].as_str())) {
        state.request_manage();
        ok()
    } else {
        err3("raise_monitor: no such monitor '", a[0].as_str(), "'")
    }
}

/// `focus_monitor <monitor>`.
pub open spec fn focus_monitor(w: World, a: Seq<Text>) -> (World, Text) {
    on_monitor(
        w,
        a,
        "focus_monitor: expected a monitor selector"@,
        "focus_monitor: no such monitor '"@,
        |d: Desk, i: int| d.with_focus(i),
    )
}

pub fn cmd_focus_monitor(state: &mut State, a: &[String]) -> (r: String)
    requires
        old(state)@.wf(),
    ensures
        (final(state)@, r@) == focus_monitor(old(state)@, a.deep_view()),
        final(state)@.wf(),
{
    if a.len() == 0 {
        return err("focus_monitor: expected a monitor selector");
    }
    assert(a.deep_view()[0] == a@[0]@);
    if state.monitors.focus_monitor(&MonitorSel::parse(a[0].as_str())) {
        state.request_manage();
        ok()
    } else {
        err3("focus_monitor: no such monitor '", a[0].as_str(), "'")
    }
}

/// `remove_monitor <monitor>`.
pub open spec fn remove_monitor(w: World, a: Seq<Text>) -> (World, Text) {
    on_monitor(
        w,
        a,
        "remove_monitor: expected a monitor selector"@,
        "remove_monitor: no such monitor '"@,
        |d: Desk, i: int| d.without(i),
    )
}

pub fn cmd_remove_monitor(state: &mut State, a: &[String]) -> (r: String)
    requires
        old(state)@.wf(),
    ensures
        (final(state)@, r@) == remove_monitor(old(state)@, a.deep_view()),
        final(state)@.wf(),
{
    if a.len() == 0 {
        return err("remove_monitor: expected a monitor selector");
    }
    assert(a.deep_view()[0] == a@[0]@);
    if state.monitors.remove_monitor(&MonitorSel::parse(a[0].as_str())) {
        state.request_manage();
        ok()
    } else {
        err3("remove_monitor: no such monitor '", a[0].as_str(), "'")
    }
}

/// `unlock_tag <monitor>`.
pub open spec fn unlock_tag(w: World, a: Seq<Text>) -> (World, Text) {
    on_monitor(
        w,
        a,
        "unlock_tag: expected a monitor selector"@,
        "unlock_tag: no such monitor '"@,
        |d: Desk, i: int| d.with_screen(i, (Screen { locked_tag: None, ..d.list[i] })),
    )
}

pub fn cmd_unlock_tag(state: &mut State, a: &[String]) -> (r: String)
    requires
        old(state)@.wf(),
    ensures
        (final(state)@, r@) == unlock_tag(old(state)@, a.deep_view()),
        final(state)@.wf(),
{
    if a.len() == 0 {
        return err("unlock_tag: expected a monitor selector");
    }
    assert(a.deep_view()[0] == a@[0]@);
    if state.monitors.unlock_tag(&MonitorSel::parse(a[0].as_str())) {
        state.request_manage();
        ok()
    } else {
        err3("unlock_tag: no such monitor '", a[0].as_str(), "'")
    }
}

/// `lock_tag <tag> <monitor>`.
pub open spec fn lock_tag(w: World, a: Seq<Text>) -> (World, Text) {
    if a.len() < 2 {
        (w, err_text("lock_tag: expected <tag> <monitor>"@))
    } else if tag_text(a[0]) is None {
        (w, err_about("lock_tag: bad tag '"@, a[0], "'"@))
    } else {
        match find_screen(w.desk.list, selector_text(a[1])) {
            Some(i) => (
                (World { desk: w.desk.locked(i, tag_text(a[0])->0), ..w }).manage(),
                ok_text(),
            ),
            None => (w, err_about("lock_tag: no such monitor '"@, a[1], "'"@)),
        }
    }
}

pub fn cmd_lock_tag(state: &mut State, a: &[String]) -> (r: String)
    requires
        old(state)@.wf(),
    ensures
        (final(state)@, r@) == lock_tag(old(state)@, a.deep_view()),
        final(state)@.wf(),
{
    if a.len() < 2 {
        return err("lock_tag: expected <tag> <monitor>");
    }
    assert(a.deep_view()[0] == a@[0]@ && a.deep_view()[1] == a@[1]@);
    match parse_tag(a[0].as_str()) {
        None => err3("lock_tag: bad tag '", a[0].as_str(), "'"),
        Some(tag) => if state.monitors.lock_tag(tag, &MonitorSel::parse(a[1].as_str())) {
            state.request_manage();
            ok()
        } else {
            err3("lock_tag: no such monitor '", a[1].as_str(), "'")
        },
    }
}

/// The number that an argument writes; zero where there is no such argument.
pub open spec fn edge(a: Seq<Text>, i: int) -> i32 {
    if i < a.len() {
        signed32(a[i])->0 as i32
    } else {
        0
    }
}

/// Whether every argument from the second on is a number.
pub open spec fn edges_are_numbers(a: Seq<Text>) -> bool {
    forall|i: int| 1 <= i < a.len() ==> signed32(#[trigger] a[i]) is Some
}

/// `pad <monitor> <top> [right] [bottom] [left]`.
pub open spec fn pad(w: World, a: Seq<Text>) -> (World, Text) {
    if a.len() < 2 {
        (w, err_text("pad: expected <monitor> <top> [right] [bottom] [left]"@))
    } else if !edges_are_numbers(a) {
        (w, err_text("pad: edge values must be integers"@))
    } else {
        match find_screen(w.desk.list, selector_text(a[0])) {
            Some(i) => {
                let p = Insets {
                    top: edge(a, 1),
                    right: edge(a, 2),
                    bottom: edge(a, 3),
                    left: edge(a, 4),
                };
                (
                    (World {
                        desk: w.desk.with_screen(i, (Screen { pad: p, ..w.desk.list[i] })),
                        ..w
                    }).manage(),
                    ok_text(),
                )
            },
            None => (w, err_about("pad: no such monitor '"@, a[0], "'"@)),
        }
    }
}

/// The number of an argument that is one; zero where there is none.
fn read_edge(nums: &Vec<i32>, i: usize) -> (r: i32)
    ensures
        r == if i < nums@.len() {
            nums@[i as int]
        } else {
            0
        },
{
    if i < nums.len() {
        nums[i]
    } else {
        0
    }
}

pub fn cmd_pad(state: &mut State, a: &[String]) -> (r: String)
    requires
        old(state)@.wf(),
    ensures
        (final(state)@, r@) == pad(old(state)@, a.deep_view()),
        final(state)@.wf(),
{
    let ghost all = a.deep_view();
    if a.len() < 2 {
        return err("pad: expected <monitor> <top> [right] [bottom] [left]");
    }
    let mut nums: Vec<i32> = Vec::new();
    let mut i: usize = 1;
    while i < a.len()
        invariant
            1 <= i <= a@.len(),
            a@.len() >= 2,
            all == a.deep_view(),
            nums@.len() == i - 1,
            forall|k: int|
                1 <= k < i ==> signed32(#[trigger] all[k]) is Some && nums@[k - 1] == signed32(
                    all[k],
                )->0,
            state@ == old(state)@,
            state@.wf(),
        decreases a@.len() - i,
    {
        assert(all[i as int] == a@[i as int]@);
        match parse_i32(a[i].as_str()) {
            Some(n) => nums.push(n),
            None => {
                assert(!edges_are_numbers(all));
                return err("pad: edge values must be integers");
            },
        }
        i += 1;
    }
    assert(edges_are_numbers(all));
    let p = Insets {
        top: read_edge(&nums, 0),
        right: read_edge(&nums, 1),
        bottom: read_edge(&nums, 2),
        left: read_edge(&nums, 3),
    };
    assert(all[0] == a@[0]@);
    if state.monitors.set_pad(&MonitorSel::parse(a[0].as_str()), p) {
        state.request_manage();
        ok()
    } else {
        err3("pad: no such monitor '", a[0].as_str(), "'")
    }
}

/// `cycle_monitor [steps]`.
pub open spec fn cycle_monitor(w: World, a: Seq<Text>) -> (World, Text) {
    ((World { desk: w.desk.cycled(steps(a)), ..w }).manage(), ok_text())
}

pub fn cmd_cycle_monitor(state: &mut State, a: &[String]) -> (r: String)
    requires
        old(state)@.wf(),
    ensures
        (final(state)@, r@) == cycle_monitor(old(state)@, a.deep_view()),
        final(state)@.wf(),
{
    let delta: i32 = read_steps(a);
    state.monitors.cycle_monitor(delta);
    state.request_manage();
    ok()
}

/// `move_monitor <monitor> <rect>`.
pub open spec fn move_monitor(w: World, a: Seq<Text>) -> (World, Text) {
    if a.len() < 2 {
        (w, err_text("move_monitor: expected <monitor> <rect>"@))
    } else if rect_text(a[1]) is None {
        (w, err_about("move_monitor: bad rect '"@, a[1], "'"@))
    } else {
        match find_screen(w.desk.list, selector_text(a[0])) {
            Some(i) => (
                (World {
                    desk: w.desk.with_screen(
                        i,
                        (Screen { rect: rect_text(a[1])->0, ..w.desk.list[i] }),
                    ),
                    ..w
                }).manage(),
                ok_text(),
            ),
            None => (w, err_about("move_monitor: no such monitor '"@, a[0], "'"@)),
        }
    }
}

pub fn cmd_move_monitor(state: &mut State, a: &[String]) -> (r: String)
    requires
        old(state)@.wf(),
    ensures
        (final(state)@, r@) == move_monitor(old(state)@, a.deep_view()),
        final(state)@.wf(),
{
    if a.len() < 2 {
        return err("move_monitor: expected <monitor> <rect>");
    }
    assert(a.deep_view()[0] == a@[0]@ && a.deep_view()[1] == a@[1]@);
    match Rect::parse(a[1].as_str()) {
        None => err3("move_monitor: bad rect '", a[1].as_str(), "'"),
        Some(rect) => if state.monitors.move_monitor(&MonitorSel::parse(a[0].as_str()), rect) {
            state.request_manage();
            ok()
        } else {
            err3("move_monitor: no such monitor '", a[0].as_str(), "'")
        },
    }
}

/// `rename_monitor <monitor> <name>`; an empty name takes the old one away.
pub open spec fn rename_monitor(w: World, a: Seq<Text>) -> (World, Text) {
    if a.len() < 2 {
        (w, err_text("rename_monitor: expected <monitor> <name>"@))
    } else {
        let name = if a[1].len() == 0 {
            None
        } else {
            Some(a[1])
        };
        match find_screen(w.desk.list, selector_text(a[0])) {
            Some(i) => (
                World {
                    desk: w.desk.with_screen(i, (Screen { name, ..w.desk.list[i] })),
                    ..w
                },
                ok_text(),
            ),
            None => (w, err_about("rename_monitor: no such monitor '"@, a[0], "'"@)),
        }
    }
}

pub fn cmd_rename_monitor(state: &mut State, a: &[String]) -> (r: String)
    requires
        old(state)@.wf(),
    ensures
        (final(state)@, r@) == rename_monitor(old(state)@, a.deep_view()),
        final(state)@.wf(),
{
    if a.len() < 2 {
        return err("rename_monitor: expected <monitor> <name>");
    }
    assert(a.deep_view()[0] == a@[0]@ && a.deep_view()[1] == a@[1]@);
    let name: Option<String> = if a[1].as_str().is_empty() {
        None
    } else {
        Some(a[1].clone())
    };
    if state.monitors.rename_monitor(&MonitorSel::parse(a[0].as_str()), name) {
        ok()
    } else {
        err3("rename_monitor: no such monitor '", a[0].as_str(), "'")
    }
}

} // verus!
