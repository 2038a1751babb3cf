//! Commands on tags and windows.

use vstd::prelude::*;
use crate::frame::{Frame, LayoutMode, WinId};
use crate::monitor::{
    find_screen, rect_text, selector_text, shown_elsewhere, Desk, MonitorSel, Rect, Screen, TagId,
};
use crate::number::{parse_i32, parse_u64, parse_usize, show, signed32, u64_text, unsigned};
use crate::reply::{
    err, err3, err_about, err_text, ok, ok_text, parse_tag, switch, switched, tag_text, two,
};
use crate::rules::DockAnchor;
use crate::state::{
    bump, bumped, lemma_mapped_wf, lemma_tree_wf, lemma_win_place, lemma_with_tree_wf, win_place, Deed, Effect,
    State, Window, World,
};
use crate::table::{find_key, lemma_put, value_of};
use crate::text::{lower, lowered, same, Text};
use crate::tree::{bare_leaf, Tree};

verus! {

// --- hooks ------------------------------------------------------------------------

/// A line of three fields, sent to those who listen.
pub open spec fn hook_three(w: World, a: Text, b: Text, c: Text) -> World {
    w.then_do(Deed::Hook(a + "\t"@ + b + "\t"@ + c + "\n"@))
}

/// Sends a line of three fields.
pub fn emit_three(state: &mut State, a: &str, b: &str, c: &str)
    requires
        old(state)@.wf(),
    ensures
        final(state)@ == hook_three(old(state)@, a@, b@, c@),
        final(state)@.wf(),
{
    let mut line = a.to_owned();
    line.append("\t");
    line.append(b);
    line.append("\t");
    line.append(c);
    line.append("\n");
    state.perform(Effect::Hook(line));
}

/// Those who listen told what the focused monitor shows.
pub open spec fn tag_changed(w: World) -> World {
    hook_three(w, "tag_changed"@, show(w.focused_tag() as nat), show(w.desk.focus as nat))
}

/// Tells those who listen what the focused monitor shows.
pub fn emit_tag_changed(state: &mut State)
    requires
        old(state)@.wf(),
    ensures
        final(state)@ == tag_changed(old(state)@),
        final(state)@.wf(),
{
    let tag = u64_text(state.focused_tag() as u64);
    let mon = u64_text(state.monitors.focus as u64);
    emit_three(state, "tag_changed", tag.as_str(), mon.as_str());
}

// --- tags -------------------------------------------------------------------------

/// Whether the focused monitor goes over to another tag where it is to show this one.
pub open spec fn goes_over(desk: Desk, tag: TagId) -> bool {
    0 <= desk.focus < desk.list.len() && {
        let m = desk.list[desk.focus];
        m.tag != tag && (m.locked_tag is None || m.locked_tag == Some(tag))
    }
}

/// A tag shown on the focused monitor, and the one before remembered where that is
/// another.
pub open spec fn switch_to(w: World, tag: TagId) -> World {
    let v = if goes_over(w.desk, tag) {
        w.remember()
    } else {
        w
    };
    tag_changed(World { desk: v.desk.show(tag), ..v }).manage()
}

/// A monitor that went over to another tag goes back to the one before with
/// `use_previous`, and to and fro with each further one. Being told in between to show
/// what it shows makes no difference.
pub proof fn law_toggles(w: World, tag: TagId)
    requires
        w.wf(),
        w.desk.focus <= u64::MAX,
        goes_over(w.desk, tag),
        w.desk.list[w.desk.focus].locked_tag is None,
    ensures
        ({
            let there = switch_to(w, tag);
            let again = switch_to(there, tag);
            let back = use_previous(again).0;
            &&& there.focused_tag() == tag
            &&& again.focused_tag() == tag
            &&& back.focused_tag() == w.focused_tag()
            &&& use_previous(back).0.focused_tag() == tag
        }),
{
    let at = w.desk.focus as u64;
    let there = switch_to(w, tag);
    let again = switch_to(there, tag);
    lemma_put(w.prev_tag, at, w.focused_tag());
    assert(again.prev_tag == there.prev_tag);
    let back = use_previous(again).0;
    lemma_put(again.prev_tag, at, tag);
}

/// Shows a tag on the focused monitor and remembers the one before.
fn show_tag(state: &mut State, tag: TagId)
    requires
        old(state)@.wf(),
    ensures
        final(state)@ == switch_to(old(state)@, tag),
        final(state)@.wf(),
{
    let over: bool = match state.monitors.focused() {
        Some(m) => m.tag != tag && (match m.locked_tag {
            None => true,
            Some(t) => t == tag,
        }),
        None => false,
    };
    if over {
        state.remember_prev_tag();
    }
    state.monitors.show_on_focused(tag);
    emit_tag_changed(state);
    state.request_manage();
}

/// `use <tag>`: the tag shown, on its home monitor where it has one.
pub open spec fn use_tag(w: World, a: Seq<Text>) -> (World, Text) {
    if a.len() == 0 || tag_text(a[0]) is None {
        (w, err_text("use: expected a tag"@))
    } else {
        let tag = tag_text(a[0])->0;
        let v = match value_of(w.tag_monitor, tag as u64) {
            Some(sel) => match find_screen(w.desk.list, sel) {
                Some(i) => World { desk: w.desk.with_focus(i), ..w },
                None => w,
            },
            None => w,
        };
        (switch_to(v, tag), ok_text())
    }
}

pub fn cmd_use(state: &mut State, a: &[String]) -> (r: String)
    requires
        old(state)@.wf(),
    ensures
        (final(state)@, r@) == use_tag(old(state)@, a.deep_view()),
        final(state)@.wf(),
{
    if a.len() == 0 {
        return err("use: expected a tag");
    }
    assert(a.deep_view()[0] == a@[0]@);
    match parse_tag(a[0].as_str()) {
        None => err("use: expected a tag"),
        Some(tag) => {
            let i: usize = find_key(&state.tag_monitor, tag as u64);
            if i < state.tag_monitor.len() {
                assert(state@.tag_monitor[i as int].1 == state.tag_monitor@[i as int].1@);
                state.monitors.focus_monitor(&state.tag_monitor[i].1);
            }
            show_tag(state, tag);
            ok()
        },
    }
}

/// `use_previous`: the tag shown that the focused monitor showed before.
pub open spec fn use_previous(w: World) -> (World, Text) {
    match value_of(w.prev_tag, w.desk.focus as u64) {
        Some(prev) => (switch_to(w, prev), ok_text()),
        None => (w, ok_text()),
    }
}

pub fn cmd_use_previous(state: &mut State) -> (r: String)
    requires
        old(state)@.wf(),
    ensures
        (final(state)@, r@) == use_previous(old(state)@),
        final(state)@.wf(),
{
    let i: usize = find_key(&state.prev_tag, state.monitors.focus as u64);
    if i < state.prev_tag.len() {
        assert(state@.prev_tag[i as int] == state.prev_tag@[i as int]);
        let prev: TagId = state.prev_tag[i].1;
        show_tag(state, prev);
    }
    ok()
}

/// The place among the nine tags that `left` steps lead to from `pos`. Where `seen`
/// are skipped, a step onto one of them does not count, and after nine such steps in
/// a row the walk ends.
pub open spec fn walk(pos: int, back: bool, left: int, skipped: int, seen: Set<TagId>) -> int
    decreases left, 9 - skipped,
{
    if left <= 0 || skipped >= 9 {
        pos
    } else {
        let next = if back {
            (pos - 1) % 9
        } else {
            (pos + 1) % 9
        };
        if seen.contains((next + 1) as TagId) {
            walk(next, back, left, skipped + 1, seen)
        } else {
            walk(next, back, left - 1, 0, seen)
        }
    }
}

/// Where nothing is skipped, a walk is that many steps round the nine tags.
pub proof fn law_walk_all(pos: int, back: bool, left: int)
    requires
        0 <= pos < 9,
        left >= 0,
    ensures
        walk(pos, back, left, 0, Set::empty()) == if back {
            (pos - left) % 9
        } else {
            (pos + left) % 9
        },
    decreases left,
{
    if left > 0 {
        let next = if back {
            (pos - 1) % 9
        } else {
            (pos + 1) % 9
        };
        law_walk_all(next, back, left - 1);
    }
}

/// The place that is `m` steps before `pos` on a walk.
spec fn steps_before(pos: int, back: bool, m: int) -> int {
    let p = if back {
        pos + m
    } else {
        pos - m
    };
    if p >= 9 {
        p - 9
    } else if p < 0 {
        p + 9
    } else {
        p
    }
}

proof fn lemma_walk_unseen(pos: int, back: bool, left: int, skipped: int, seen: Set<TagId>, free: int)
    requires
        0 <= pos < 9,
        0 <= skipped <= 9,
        0 <= left,
        left == 0 ==> !seen.contains((pos + 1) as TagId),
        forall|m: int|
            0 <= m < skipped ==> seen.contains((#[trigger] steps_before(pos, back, m) + 1) as TagId),
        0 <= free < 9,
        !seen.contains((free + 1) as TagId),
    ensures
        0 <= walk(pos, back, left, skipped, seen) < 9,
        !seen.contains((walk(pos, back, left, skipped, seen) + 1) as TagId),
    decreases left, 9 - skipped,
{
    if skipped == 9 {
        let d = if back {
            free - pos
        } else {
            pos - free
        };
        let m = if d < 0 {
            d + 9
        } else {
            d
        };
        assert(steps_before(pos, back, m) == free);
    } else if left > 0 {
        let next = if back {
            (pos - 1) % 9
        } else {
            (pos + 1) % 9
        };
        assert(next == steps_before(pos, !back, 1));
        if seen.contains((next + 1) as TagId) {
            assert forall|m: int| 0 <= m < skipped + 1 implies seen.contains(
                (#[trigger] steps_before(next, back, m) + 1) as TagId,
            ) by {
                if m > 0 {
                    assert(steps_before(next, back, m) == steps_before(pos, back, m - 1));
                }
            }
            lemma_walk_unseen(next, back, left, skipped + 1, seen, free);
        } else {
            lemma_walk_unseen(next, back, left - 1, 0, seen, free);
        }
    }
}

/// Where some of the nine tags is not to be skipped, a walk ends on such a one.
pub proof fn law_walk_skips(pos: int, back: bool, left: int, seen: Set<TagId>, free: TagId)
    requires
        0 <= pos < 9,
        left >= 1,
        1 <= free <= 9,
        !seen.contains(free),
    ensures
        1 <= walk(pos, back, left, 0, seen) + 1 <= 9,
        !seen.contains((walk(pos, back, left, 0, seen) + 1) as TagId),
{
    lemma_walk_unseen(pos, back, left, 0, seen, free - 1);
}

/// Where the focused monitor's tag is among the nine; the first place where it is not.
pub open spec fn tag_position(tag: TagId) -> int {
    if 1 <= tag <= 9 {
        tag - 1
    } else {
        0
    }
}

/// The tag that an index says: one of the nine by its place, or so many steps on.
pub open spec fn indexed_tag(w: World, a: Seq<Text>) -> Result<TagId, Text> {
    let arg = a[0];
    let seen = if a.contains("--skip-visible"@) {
        shown_elsewhere(w.desk)
    } else {
        Set::empty()
    };
    if arg.len() > 0 && (arg[0] == '+' || arg[0] == '-') {
        match signed32(arg) {
            None => Err(err_about("use_index: bad relative index '"@, arg, "'"@)),
            Some(delta) => {
                let size = if delta < 0 {
                    -delta
                } else {
                    delta
                };
                let left = if size > 1 {
                    size
                } else {
                    1
                };
                Ok((walk(tag_position(w.focused_tag()), delta < 0, left, 0, seen) + 1) as TagId)
            },
        }
    } else {
        match unsigned(arg, usize::MAX as int) {
            None => Err(err_about("use_index: bad index '"@, arg, "'"@)),
            Some(i) => if i < 9 {
                Ok((i + 1) as TagId)
            } else {
                Err(err_about("use_index: index "@, show(i as nat), " out of range"@))
            },
        }
    }
}

/// `use_index <index> [--skip-visible]`: the tags that are skipped are those that
/// another monitor shows.
pub open spec fn use_index(w: World, a: Seq<Text>) -> (World, Text) {
    if a.len() == 0 {
        (w, err_text("use_index: expected an index"@))
    } else {
        match indexed_tag(w, a) {
            Ok(tag) => (switch_to(w, tag), ok_text()),
            Err(e) => (w, e),
        }
    }
}

/// Whether an argument is there.
fn has_arg(a: &[String], s: &str) -> (r: bool)
    ensures
        r == a.deep_view().contains(s@),
{
    let ghost all = a.deep_view();
    let mut i: usize = 0;
    while i < a.len()
        invariant
            i <= a@.len(),
            all == a.deep_view(),
            forall|j: int| 0 <= j < i ==> #[trigger] all[j] != s@,
        decreases a@.len() - i,
    {
        assert(all[i as int] == a@[i as int]@);
        if same(a[i].as_str(), s) {
            return true;
        }
        i += 1;
    }
    false
}

/// Walks so many steps round the nine tags.
fn walk_tags(state: &State, start: i64, back: bool, count: i64, skip: bool) -> (r: i64)
    requires
        0 <= start < 9,
        count >= 1,
    ensures
        r == walk(
            start as int,
            back,
            count as int,
            0,
            if skip {
                shown_elsewhere(state@.desk)
            } else {
                Set::empty()
            },
        ),
        0 <= r < 9,
{
    let ghost seen = if skip {
        shown_elsewhere(state@.desk)
    } else {
        Set::empty()
    };
    let mut pos: i64 = start;
    let mut left: i64 = count;
    let mut skipped: i64 = 0;
    while left > 0 && skipped < 9
        invariant
            0 <= pos < 9,
            0 <= left,
            0 <= skipped <= 9,
            seen == if skip {
                shown_elsewhere(state@.desk)
            } else {
                Set::empty()
            },
            walk(pos as int, back, left as int, skipped as int, seen) == walk(
                start as int,
                back,
                count as int,
                0,
                seen,
            ),
        decreases left, 9 - skipped,
    {
        let next: i64 = if back {
            if pos == 0 {
                8
            } else {
                pos - 1
            }
        } else {
            if pos == 8 {
                0
            } else {
                pos + 1
            }
        };
        let t: TagId = (next + 1) as u32;
        if skip && state.monitors.tag_elsewhere(t) {
            skipped += 1;
        } else {
            left -= 1;
            skipped = 0;
        }
        pos = next;
    }
    pos
}

pub fn cmd_use_index(state: &mut State, a: &[String]) -> (r: String)
    requires
        old(state)@.wf(),
    ensures
        (final(state)@, r@) == use_index(old(state)@, a.deep_view()),
        final(state)@.wf(),
{
    if a.len() == 0 {
        return err("use_index: expected an index");
    }
    assert(a.deep_view()[0] == a@[0]@);
    let skip: bool = has_arg(a, "--skip-visible");
    let arg = a[0].as_str();
    let cur: TagId = state.focused_tag();
    let start: i64 = if 1 <= cur && cur <= 9 { (cur - 1) as i64 } else { 0 };
    let signed: bool = arg.unicode_len() > 0 && (arg.get_char(0) == '+' || arg.get_char(0) == '-');
    let tag: TagId = if signed {
        match parse_i32(arg) {
            None => {
                return err3("use_index: bad relative index '", arg, "'");
            },
            Some(delta) => {
                let size: i64 = if delta < 0 { -(delta as i64) } else { delta as i64 };
                let left: i64 = if size > 1 { size } else { 1 };
                (walk_tags(state, start, delta < 0, left, skip) + 1) as u32
            },
        }
    } else {
        match parse_usize(arg) {
            None => {
                return err3("use_index: bad index '", arg, "'");
            },
            Some(i) => if i < 9 {
                i as u32 + 1
            } else {
                let n = u64_text(i as u64);
                return err3("use_index: index ", n.as_str(), " out of range");
            },
        }
    };
    show_tag(state, tag);
    ok()
}

/// Windows put on a tag, one after the other.
pub open spec fn adopt(w: World, ids: Seq<WinId>, tag: TagId) -> World
    decreases ids.len(),
{
    if ids.len() == 0 {
        w
    } else {
        let v = adopt(w, ids.drop_last(), tag);
        let id = ids.last();
        v.with_win(id, Window { tag, ..v.win(id) }).with_leaf(tag, id)
    }
}

/// `merge_tag <src> [target]`: every window of one tag put on another.
pub open spec fn merge_tag(w: World, a: Seq<Text>) -> (World, Text) {
    if a.len() == 0 || tag_text(a[0]) is None {
        (w, err_text("merge_tag: expected <src> [target]"@))
    } else {
        let src = tag_text(a[0])->0;
        let target = if a.len() > 1 && tag_text(a[1]) is Some {
            tag_text(a[1])->0
        } else {
            w.focused_tag()
        };
        if src == target {
            (w, ok_text())
        } else {
            match w.tree(src) {
                Some(t) => (
                    adopt(w.with_tree(src, bare_leaf(LayoutMode::Vertical)), t.windows(), target).manage(),
                    ok_text(),
                ),
                None => (w.manage(), ok_text()),
            }
        }
    }
}

proof fn lemma_insert_wf(t: Tree, id: WinId)
    requires
        t.wf(),
    ensures
        t.insert(id).wf(),
{
    crate::frame_laws::law_insert(t, id);
}

/// Puts a window on a tag: its own tag changed, and the tag's tree given it.
fn adopt_one(state: &mut State, id: WinId, tag: TagId)
    requires
        old(state)@.wf(),
    ensures
        final(state)@ == ({
            let w = old(state)@;
            w.with_win(id, Window { tag, ..w.win(id) }).with_leaf(tag, id)
        }),
        final(state)@.wf(),
{
    if let Some(w) = state.win_mut(id) {
        w.tag = tag;
    }
    let ghost v = state@;
    proof {
        lemma_tree_wf(v, tag);
        lemma_insert_wf(v.tree_or_new(tag), id);
        lemma_with_tree_wf(v, tag, v.tree_or_new(tag).insert(id));
    }
    state.tag_tree_mut(tag).insert_window(id);
}

pub fn cmd_merge_tag(state: &mut State, a: &[String]) -> (r: String)
    requires
        old(state)@.wf(),
    ensures
        (final(state)@, r@) == merge_tag(old(state)@, a.deep_view()),
        final(state)@.wf(),
{
    if a.len() == 0 {
        return err("merge_tag: expected <src> [target]");
    }
    assert(a.deep_view()[0] == a@[0]@);
    match parse_tag(a[0].as_str()) {
        None => err("merge_tag: expected <src> [target]"),
        Some(src) => {
            assert(a@.len() > 1 ==> a.deep_view()[1] == a@[1]@);
            let named: Option<TagId> = if a.len() > 1 {
                parse_tag(a[1].as_str())
            } else {
                None
            };
            let target: TagId = match named {
                Some(t) => t,
                None => state.focused_tag(),
            };
            if src == target {
                return ok();
            }
            let k: usize = find_key(&state.tags, src as u64);
            if k < state.tags.len() {
                assert(state@.trees[k as int].1 == state.tags@[k as int].1@);
                let ids = state.tags[k].1.all_windows();
                proof {
                    lemma_with_tree_wf(state@, src, bare_leaf(LayoutMode::Vertical));
                }
                *state.tag_tree_mut(src) = Frame::new();
                let ghost start = state@;
                let mut i: usize = 0;
                assert(ids@.take(0) =~= Seq::<WinId>::empty());
                while i < ids.len()
                    invariant
                        i <= ids@.len(),
                        state@ == adopt(start, ids@.take(i as int), target),
                        state@.wf(),
                    decreases ids@.len() - i,
                {
                    adopt_one(state, ids[i], target);
                    i += 1;
                    assert(ids@.take(i as int).drop_last() =~= ids@.take(i - 1));
                }
                assert(ids@.take(i as int) =~= ids@);
            }
            state.request_manage();
            ok()
        },
    }
}

/// A window moved from its tag to another.
pub open spec fn transfer(w: World, id: WinId, tag: TagId) -> World {
    let v = w.without_leaf(w.win(id).tag, id);
    v.with_win(id, Window { tag, ..v.win(id) }).with_leaf(tag, id)
}

/// Takes a window out of a tag's tree, where the tag has one.
pub fn take_leaf(state: &mut State, tag: TagId, id: WinId)
    requires
        old(state)@.wf(),
    ensures
        final(state)@ == old(state)@.without_leaf(tag, id),
        final(state)@.wf(),
{
    let k: usize = find_key(&state.tags, tag as u64);
    if k < state.tags.len() {
        assert(state@.trees[k as int].1 == state.tags@[k as int].1@);
        proof {
            lemma_tree_wf(state@, tag);
            crate::frame_laws::law_remove(state@.tree_or_new(tag), id);
            lemma_with_tree_wf(state@, tag, state@.tree_or_new(tag).remove(id));
        }
        state.tag_tree_mut(tag).remove_window(id);
    }
}

/// Moves a window from its tag to another.
pub fn transfer_window(state: &mut State, id: WinId, from: TagId, tag: TagId)
    requires
        old(state)@.wf(),
        old(state)@.has_win(id),
        from == old(state)@.win(id).tag,
    ensures
        final(state)@ == transfer(old(state)@, id, tag),
        final(state)@.wf(),
{
    take_leaf(state, from, id);
    adopt_one(state, id, tag);
}

/// The focused window moved to a tag.
pub open spec fn move_to(w: World, tag: TagId) -> (World, Text) {
    match w.focused_window() {
        None => (w, err_text("move: no focused window"@)),
        Some(id) => if !w.has_win(id) {
            (w, err_text("move: focused window missing"@))
        } else if w.win(id).tag == tag {
            (w, ok_text())
        } else {
            (transfer(w, id, tag).manage(), ok_text())
        },
    }
}

/// Moves the focused window to a tag.
pub fn move_focused_to_tag(state: &mut State, tag: TagId) -> (r: String)
    requires
        old(state)@.wf(),
    ensures
        (final(state)@, r@) == move_to(old(state)@, tag),
        final(state)@.wf(),
{
    match state.focused_window() {
        None => err("move: no focused window"),
        Some(id) => {
            let i: usize = state.find_win(id);
            if i == state.windows.len() {
                return err("move: focused window missing");
            }
            let from: TagId = state.windows[i].tag;
            if from == tag {
                return ok();
            }
            transfer_window(state, id, from, tag);
            state.request_manage();
            ok()
        },
    }
}

/// `move <tag>`.
pub open spec fn move_window(w: World, a: Seq<Text>) -> (World, Text) {
    if a.len() == 0 || tag_text(a[0]) is None {
        (w, err_text("move: expected a tag"@))
    } else {
        move_to(w, tag_text(a[0])->0)
    }
}

pub fn cmd_move(state: &mut State, a: &[String]) -> (r: String)
    requires
        old(state)@.wf(),
    ensures
        (final(state)@, r@) == move_window(old(state)@, a.deep_view()),
        final(state)@.wf(),
{
    if a.len() == 0 {
        return err("move: expected a tag");
    }
    assert(a.deep_view()[0] == a@[0]@);
    match parse_tag(a[0].as_str()) {
        None => err("move: expected a tag"),
        Some(tag) => move_focused_to_tag(state, tag),
    }
}

/// `shift_to_monitor <monitor>`: the focused window moved to the tag shown there.
pub open spec fn shift_to_monitor(w: World, a: Seq<Text>) -> (World, Text) {
    if a.len() == 0 {
        (w, err_text("shift_to_monitor: expected a monitor selector"@))
    } else {
        match find_screen(w.desk.list, selector_text(a[0])) {
            Some(i) => move_to(w, w.desk.list[i].tag),
            None => (w, err_about("shift_to_monitor: no such monitor '"@, a[0], "'"@)),
        }
    }
}

pub fn cmd_shift_to_monitor(state: &mut State, a: &[String]) -> (r: String)
    requires
        old(state)@.wf(),
    ensures
        (final(state)@, r@) == shift_to_monitor(old(state)@, a.deep_view()),
        final(state)@.wf(),
{
    if a.len() == 0 {
        return err("shift_to_monitor: expected a monitor selector");
    }
    assert(a.deep_view()[0] == a@[0]@);
    match state.monitors.tag_of(&MonitorSel::parse(a[0].as_str())) {
        Some(tag) => move_focused_to_tag(state, tag),
        None => err3("shift_to_monitor: no such monitor '", a[0].as_str(), "'"),
    }
}

/// The window number that a text writes.
pub open spec fn id_text(s: Text) -> Option<WinId> {
    match unsigned(s, u64::MAX as int) {
        Some(n) => Some(n as WinId),
        None => None,
    }
}

/// `bring <window>`: the window put into the focused frame of the focused tag.
pub open spec fn bring(w: World, a: Seq<Text>) -> (World, Text) {
    if a.len() == 0 || id_text(a[0]) is None {
        (w, err_text("bring: expected a window id"@))
    } else {
        let id = id_text(a[0])->0;
        let to = w.focused_tag();
        if !w.has_win(id) {
            (w, err_text("bring: no such window "@ + show(id as nat)))
        } else if w.win(id).tag != to {
            (transfer(w, id, to).manage(), ok_text())
        } else {
            (w.map_tree(|t: Tree| t.fetch(id)).manage(), ok_text())
        }
    }
}

/// Moves a window of the focused tag into its focused frame.
fn fetch_in_tag(state: &mut State, id: WinId)
    requires
        old(state)@.wf(),
    ensures
        final(state)@ == old(state)@.map_tree(|t: Tree| t.fetch(id)),
        final(state)@.wf(),
{
    let tag: TagId = state.focused_tag();
    proof {
        lemma_tree_wf(state@, tag);
        crate::frame_laws::law_fetch(state@.tree_or_new(tag), id);
        lemma_with_tree_wf(state@, tag, state@.tree_or_new(tag).fetch(id));
    }
    state.tag_tree_mut(tag).fetch_window(id);
}

pub fn cmd_bring(state: &mut State, a: &[String]) -> (r: String)
    requires
        old(state)@.wf(),
    ensures
        (final(state)@, r@) == bring(old(state)@, a.deep_view()),
        final(state)@.wf(),
{
    if a.len() == 0 {
        return err("bring: expected a window id");
    }
    assert(a.deep_view()[0] == a@[0]@);
    match parse_u64(a[0].as_str()) {
        None => err("bring: expected a window id"),
        Some(id) => {
            let i: usize = state.find_win(id);
            if i == state.windows.len() {
                let n = u64_text(id);
                return err(two("bring: no such window ", n.as_str()).as_str());
            }
            let from: TagId = state.windows[i].tag;
            let to: TagId = state.focused_tag();
            if from != to {
                transfer_window(state, id, from, to);
            } else {
                fetch_in_tag(state, id);
            }
            state.request_manage();
            ok()
        },
    }
}

/// The first monitor that shows a tag; the number of them where none does.
pub open spec fn tag_screen(list: Seq<Screen>, tag: TagId) -> int
    decreases list.len(),
{
    if list.len() == 0 || list[0].tag == tag {
        0
    } else {
        1 + tag_screen(list.drop_first(), tag)
    }
}

/// A window selected in a tag's tree, where the tag has one.
pub open spec fn focus_leaf(w: World, tag: TagId, id: WinId) -> World {
    match w.tree(tag) {
        Some(t) => w.with_tree(tag, t.focus_on(id)),
        None => w,
    }
}

/// The focus on the monitor that shows a tag, where one does.
pub open spec fn focus_screen(w: World, tag: TagId) -> World {
    let m = tag_screen(w.desk.list, tag);
    if m < w.desk.list.len() {
        World { desk: w.desk.with_focus(m), ..w }
    } else {
        w
    }
}

/// A window that is no longer urgent, and on top where it floats and that is set.
pub open spec fn attended(w: World, id: WinId) -> World {
    let calm = Window { urgent: false, ..w.win(id) };
    if w.settings.raise_on_focus && w.floats(w.win(id)) {
        World {
            next_raise: bump(w.next_raise),
            ..w.with_win(id, Window { raise_seq: w.next_raise, ..calm })
        }
    } else {
        w.with_win(id, calm)
    }
}

/// Those who listen told of a window that got the focus.
pub open spec fn focus_changed(w: World, id: WinId) -> World {
    let title = match w.win(id).title.deep_view() {
        Some(t) => t,
        None => Seq::empty(),
    };
    hook_three(w, "focus_changed"@, show(id as nat), title)
}

/// A window given the focus: in its tag's tree, and with it the monitor that shows the
/// tag. It is no longer urgent, comes to the top where it floats and that is set, and
/// those who listen are told.
pub open spec fn focus_win(w: World, id: WinId) -> World {
    if !w.has_win(id) {
        w
    } else {
        let tag = w.win(id).tag;
        focus_changed(attended(focus_screen(focus_leaf(w, tag, id), tag), id), id)
    }
}

/// The first monitor that shows a tag.
fn find_tag_screen(state: &State, tag: TagId) -> (r: usize)
    ensures
        r == tag_screen(state@.desk.list, tag),
        r <= state@.desk.list.len(),
{
    let ghost all = state@.desk.list;
    let mut i: usize = 0;
    assert(all.skip(0) =~= all);
    while i < state.monitors.list.len() && state.monitors.list[i].tag != tag
        invariant
            i <= state.monitors.list@.len() == all.len(),
            all == state@.desk.list,
            tag_screen(all, tag) == i + tag_screen(all.skip(i as int), tag),
        decreases state.monitors.list@.len() - i,
    {
        assert(all.skip(i as int)[0] == all[i as int]);
        assert(all.skip(i as int).drop_first() =~= all.skip(i + 1));
        i += 1;
    }
    proof {
        if i < all.len() {
            assert(all.skip(i as int)[0] == all[i as int]);
        }
    }
    i
}

/// Selects a window in a tag's tree, where the tag has one.
fn focus_leaf_of(state: &mut State, tag: TagId, id: WinId)
    requires
        old(state)@.wf(),
    ensures
        final(state)@ == focus_leaf(old(state)@, tag, id),
        final(state)@.wf(),
{
    let k: usize = find_key(&state.tags, tag as u64);
    if k < state.tags.len() {
        assert(state@.trees[k as int].1 == state.tags@[k as int].1@);
        proof {
            lemma_tree_wf(state@, tag);
            crate::frame_laws::law_focus_window(state@.tree_or_new(tag), id);
            lemma_with_tree_wf(state@, tag, state@.tree_or_new(tag).focus_on(id));
        }
        state.tag_tree_mut(tag).focus_window(id);
    }
}

/// Attends to a window that gets the focus.
fn attend(state: &mut State, id: WinId, floats: bool)
    requires
        old(state)@.wf(),
        old(state)@.has_win(id),
        floats == old(state)@.floats(old(state)@.win(id)),
    ensures
        final(state)@ == attended(old(state)@, id),
        final(state)@.wf(),
{
    let raise: bool = state.settings.raise_on_focus && floats;
    let seq: u64 = state.next_raise;
    if let Some(w) = state.win_mut(id) {
        w.urgent = false;
        if raise {
            w.raise_seq = seq;
        }
    }
    if raise {
        state.next_raise = bumped(seq);
    }
}

/// Puts the focus on the monitor that shows a tag, where one does.
fn focus_screen_of(state: &mut State, tag: TagId)
    requires
        old(state)@.wf(),
    ensures
        final(state)@ == focus_screen(old(state)@, tag),
        final(state)@.wf(),
{
    let m: usize = find_tag_screen(state, tag);
    if m < state.monitors.list.len() {
        state.monitors.focus = m;
    }
}

/// Tells those who listen of a window that got the focus.
fn announce_focus(state: &mut State, id: WinId)
    requires
        old(state)@.wf(),
        old(state)@.has_win(id),
    ensures
        final(state)@ == focus_changed(old(state)@, id),
        final(state)@.wf(),
{
    let i: usize = state.find_win(id);
    let n = u64_text(id);
    let title: String = match &state.windows[i].title {
        Some(t) => t.clone(),
        None => String::new(),
    };
    emit_three(state, "focus_changed", n.as_str(), title.as_str());
}

/// A window that is replaced is still there.
pub proof fn lemma_still_there(w: World, id: WinId, new: Window)
    requires
        w.has_win(id),
        new.id == id,
    ensures
        w.with_win(id, new).has_win(id),
{
    lemma_win_place(w.windows, id);
    let v = w.with_win(id, new).windows;
    lemma_win_place(v, id);
    if win_place(v, id) >= v.len() {
        assert(v[win_place(w.windows, id)].id == id);
    }
}

/// Gives a window the focus.
pub fn focus_window_by_id(state: &mut State, id: WinId)
    requires
        old(state)@.wf(),
    ensures
        final(state)@ == focus_win(old(state)@, id),
        final(state)@.wf(),
{
    let i: usize = state.find_win(id);
    if i == state.windows.len() {
        return;
    }
    let tag: TagId = state.windows[i].tag;
    let floats: bool = state.win_floats(&state.windows[i]);
    focus_leaf_of(state, tag, id);
    focus_screen_of(state, tag);
    proof {
        let w = state@;
        lemma_win_place(w.windows, id);
        lemma_still_there(w, id, Window { urgent: false, ..w.win(id) });
        lemma_still_there(w, id, Window { urgent: false, raise_seq: w.next_raise, ..w.win(id) });
    }
    attend(state, id, floats);
    announce_focus(state, id);
}

/// The first urgent window; the number of windows where none is.
pub open spec fn urgent_place(windows: Seq<Window>) -> int
    decreases windows.len(),
{
    if windows.len() == 0 || windows[0].urgent {
        0
    } else {
        1 + urgent_place(windows.drop_first())
    }
}

/// `jumpto <window|urgent>`.
pub open spec fn jumpto(w: World, a: Seq<Text>) -> (World, Text) {
    let target: Result<WinId, Text> = if a.len() == 0 {
        Err("jumpto: expected a window id or 'urgent'"@)
    } else if a[0] == "urgent"@ {
        if urgent_place(w.windows) < w.windows.len() {
            Ok(w.windows[urgent_place(w.windows)].id)
        } else {
            Err("jumpto: no urgent window"@)
        }
    } else {
        match id_text(a[0]) {
            Some(id) => Ok(id),
            None => Err("jumpto: expected a window id or 'urgent'"@),
        }
    };
    match target {
        Err(e) => (w, err_text(e)),
        Ok(id) => if !w.has_win(id) {
            (w, err_text("jumpto: no such window "@ + show(id as nat)))
        } else {
            (focus_win(w, id).manage(), ok_text())
        },
    }
}

/// The first urgent window.
fn find_urgent(state: &State) -> (r: usize)
    ensures
        r == urgent_place(state@.windows),
        r <= state@.windows.len(),
{
    let ghost all = state@.windows;
    let mut i: usize = 0;
    assert(all.skip(0) =~= all);
    while i < state.windows.len() && !state.windows[i].urgent
        invariant
            i <= state.windows@.len() == all.len(),
            all == state.windows@,
            urgent_place(all) == i + urgent_place(all.skip(i as int)),
        decreases state.windows@.len() - i,
    {
        assert(all.skip(i as int)[0] == all[i as int]);
        assert(all.skip(i as int).drop_first() =~= all.skip(i + 1));
        i += 1;
    }
    proof {
        if i < all.len() {
            assert(all.skip(i as int)[0] == all[i as int]);
        }
    }
    i
}

pub fn cmd_jumpto(state: &mut State, a: &[String]) -> (r: String)
    requires
        old(state)@.wf(),
    ensures
        (final(state)@, r@) == jumpto(old(state)@, a.deep_view()),
        final(state)@.wf(),
{
    if a.len() == 0 {
        return err("jumpto: expected a window id or 'urgent'");
    }
    assert(a.deep_view()[0] == a@[0]@);
    let id: WinId = if same(a[0].as_str(), "urgent") {
        let i: usize = find_urgent(state);
        if i == state.windows.len() {
            return err("jumpto: no urgent window");
        }
        state.windows[i].id
    } else {
        match parse_u64(a[0].as_str()) {
            Some(id) => id,
            None => {
                return err("jumpto: expected a window id or 'urgent'");
            },
        }
    };
    if state.find_win(id) == state.windows.len() {
        let n = u64_text(id);
        return err(two("jumpto: no such window ", n.as_str()).as_str());
    }
    focus_window_by_id(state, id);
    state.request_manage();
    ok()
}

// --- the focused window -------------------------------------------------------------

/// A window as it is once one was put below all others: that one at the bottom, any
/// other a step higher.
pub open spec fn stepped(x: Window, low: WinId) -> Window {
    Window {
        raise_seq: if x.id == low {
            0
        } else {
            bump(x.raise_seq)
        },
        ..x
    }
}

/// A window put below all others, which keep their order.
pub open spec fn sunk(w: World, id: WinId) -> World {
    World {
        windows: w.windows.map_values(|x: Window| stepped(x, id)),
        next_raise: bump(w.next_raise),
        ..w
    }
}

/// The focused window put on top of the floating ones, or below them.
pub open spec fn restack(w: World, to_top: bool) -> World {
    match w.focused_window() {
        None => w,
        Some(id) => if to_top {
            (World {
                next_raise: bump(w.next_raise),
                ..w.with_win(id, Window { raise_seq: w.next_raise, ..w.win(id) })
            }).manage()
        } else {
            sunk(w, id).manage()
        },
    }
}

/// The focused window is put below every other one, and those keep their order, as long
/// as the heights last.
pub proof fn law_lowered(w: World, i: int, j: int)
    requires
        w.wf(),
        0 <= i < w.windows.len(),
        0 <= j < w.windows.len(),
        w.windows[i].raise_seq < u64::MAX,
        w.windows[j].raise_seq < u64::MAX,
        w.focused_window() is Some,
    ensures
        ({
            let id = w.focused_window()->0;
            let v = restack(w, false).windows;
            &&& v[i].id == w.windows[i].id
            &&& v[i].id == id && v[j].id != id ==> v[i].raise_seq < v[j].raise_seq
            &&& v[i].id != id && v[j].id != id ==> (v[i].raise_seq < v[j].raise_seq
                <==> w.windows[i].raise_seq < w.windows[j].raise_seq)
        }),
{
}

/// Puts a window below all others.
fn lower_window(state: &mut State, id: WinId)
    requires
        old(state)@.wf(),
    ensures
        final(state)@ == sunk(old(state)@, id),
        final(state)@.wf(),
{
    let ghost w = state@;
    let ghost ws = w.windows;
    let ghost done = ws.map_values(|x: Window| stepped(x, id));
    let mut i: usize = 0;
    proof {
        lemma_mapped_wf(w, |x: Window| stepped(x, id));
        assert(ws =~= done.take(0) + ws.skip(0));
    }
    while i < state.windows.len()
        invariant
            i <= state.windows@.len() == ws.len(),
            ws == w.windows,
            done == ws.map_values(|x: Window| stepped(x, id)),
            state.windows@ == done.take(i as int) + ws.skip(i as int),
            state@ == (World { windows: state.windows@, ..w }),
        decreases ws.len() - i,
    {
        assert(state.windows@[i as int] == ws[i as int]);
        let seq: u64 = if state.windows[i].id == id {
            0
        } else {
            bumped(state.windows[i].raise_seq)
        };
        state.windows[i].raise_seq = seq;
        assert(state.windows@[i as int] == stepped(ws[i as int], id));
        i += 1;
        assert(state.windows@ =~= done.take(i as int) + ws.skip(i as int));
    }
    assert(state.windows@ =~= done);
    state.next_raise = bumped(state.next_raise);
}

/// Puts the focused window on top of the floating ones, or below them.
pub fn restack_focused(state: &mut State, to_top: bool)
    requires
        old(state)@.wf(),
    ensures
        final(state)@ == restack(old(state)@, to_top),
        final(state)@.wf(),
{
    match state.focused_window() {
        None => {},
        Some(id) => {
            if to_top {
                let seq: u64 = state.next_raise;
                if let Some(w) = state.win_mut(id) {
                    w.raise_seq = seq;
                }
                state.next_raise = bumped(seq);
            } else {
                lower_window(state, id);
            }
            state.request_manage();
        },
    }
}

/// `close`: the focused window to be closed.
pub open spec fn close(w: World) -> (World, Text) {
    match w.focused_window() {
        Some(id) => (
            (World { pending_close: w.pending_close.push(id), ..w }).manage(),
            ok_text(),
        ),
        None => (w, err_text("close: no focused window"@)),
    }
}

pub fn cmd_close(state: &mut State) -> (r: String)
    requires
        old(state)@.wf(),
    ensures
        (final(state)@, r@) == close(old(state)@),
        final(state)@.wf(),
{
    match state.focused_window() {
        Some(id) => {
            state.pending_close.push(id);
            state.request_manage();
            ok()
        },
        None => err("close: no focused window"),
    }
}

/// The first argument; the word for the other way round where there is none.
pub open spec fn first_or_toggle(a: Seq<Text>) -> Text {
    if a.len() > 0 {
        a[0]
    } else {
        "toggle"@
    }
}

/// `fullscreen [on|off|toggle]`, and the same of `pseudotile`.
pub open spec fn window_mode(w: World, a: Seq<Text>, full: bool) -> (World, Text) {
    match w.focused_window() {
        None => (w, err_text("no focused window"@)),
        Some(id) => {
            let win = w.win(id);
            let arg = first_or_toggle(a);
            let new = if full {
                Window { fullscreen: switched(arg, win.fullscreen), ..win }
            } else {
                Window { pseudotile: switched(arg, win.pseudotile), ..win }
            };
            (w.with_win(id, new).manage(), ok_text())
        },
    }
}

pub fn cmd_window_mode(state: &mut State, a: &[String], full: bool) -> (r: String)
    requires
        old(state)@.wf(),
    ensures
        (final(state)@, r@) == window_mode(old(state)@, a.deep_view(), full),
        final(state)@.wf(),
{
    match state.focused_window() {
        None => err("no focused window"),
        Some(id) => {
            assert(a@.len() > 0 ==> a.deep_view()[0] == a@[0]@);
            let arg: &str = if a.len() > 0 {
                a[0].as_str()
            } else {
                "toggle"
            };
            if let Some(w) = state.win_mut(id) {
                if full {
                    w.fullscreen = switch(arg, w.fullscreen);
                } else {
                    w.pseudotile = switch(arg, w.pseudotile);
                }
            }
            state.request_manage();
            ok()
        },
    }
}

/// The tags without one.
pub open spec fn without_tag(tags: Seq<TagId>, tag: TagId) -> Seq<TagId>
    decreases tags.len(),
{
    if tags.len() == 0 {
        tags
    } else if tags.last() == tag {
        without_tag(tags.drop_last(), tag)
    } else {
        without_tag(tags.drop_last(), tag).push(tags.last())
    }
}

/// The tags with one more among them, or one less.
pub open spec fn with_floating_tag(tags: Seq<TagId>, tag: TagId, on: bool) -> Seq<TagId> {
    if on {
        if tags.contains(tag) {
            tags
        } else {
            tags.push(tag)
        }
    } else {
        without_tag(tags, tag)
    }
}

/// `floating <tag> [on|off|toggle|status]`.
pub open spec fn float_tag(w: World, tag: TagId, a: Seq<Text>) -> (World, Text) {
    let cur = w.floating_tags.contains(tag);
    let arg = if a.len() > 1 {
        a[1]
    } else {
        "toggle"@
    };
    if arg == "status"@ {
        (w, if cur {
            "on\n"@
        } else {
            "off\n"@
        })
    } else {
        (
            (World {
                floating_tags: with_floating_tag(w.floating_tags, tag, switched(arg, cur)),
                ..w
            }).manage(),
            ok_text(),
        )
    }
}

/// A window made to float, or to float no more.
pub open spec fn switch_float(w: World, id: WinId, cur: bool, want: bool) -> World {
    if want && !cur {
        w.make_floating(id, w.last_or_default(id))
    } else if !want && cur {
        w.with_win(id, Window { floating: false, ..w.win(id) })
    } else {
        w
    }
}

/// `floating [on|off|toggle]` of the focused window.
pub open spec fn float_window(w: World, a: Seq<Text>) -> (World, Text) {
    match w.focused_window() {
        None => (w, err_text("floating: no focused window"@)),
        Some(id) => {
            let cur = w.has_win(id) && w.win(id).floating;
            (switch_float(w, id, cur, switched(first_or_toggle(a), cur)).manage(), ok_text())
        },
    }
}

/// `floating`, of a tag where the first argument is one, else of the focused window.
pub open spec fn floating(w: World, a: Seq<Text>) -> (World, Text) {
    if a.len() > 0 && tag_text(a[0]) is Some {
        float_tag(w, tag_text(a[0])->0, a)
    } else {
        float_window(w, a)
    }
}

/// The tags without one.
fn tags_without(tags: &Vec<TagId>, tag: TagId) -> (r: Vec<TagId>)
    ensures
        r@ == without_tag(tags@, tag),
{
    let ghost all = tags@;
    let mut left: Vec<TagId> = Vec::new();
    let mut i: usize = 0;
    assert(all.take(0) =~= Seq::<TagId>::empty());
    while i < tags.len()
        invariant
            i <= tags@.len(),
            all == tags@,
            left@ == without_tag(all.take(i as int), tag),
        decreases tags@.len() - i,
    {
        assert(all.take(i + 1).drop_last() =~= all.take(i as int));
        assert(all.take(i + 1).last() == all[i as int]);
        if tags[i] != tag {
            left.push(tags[i]);
        }
        i += 1;
    }
    assert(all.take(i as int) =~= all);
    left
}

fn cmd_float_tag(state: &mut State, tag: TagId, a: &[String]) -> (r: String)
    requires
        old(state)@.wf(),
    ensures
        (final(state)@, r@) == float_tag(old(state)@, tag, a.deep_view()),
        final(state)@.wf(),
{
    assert(a@.len() > 1 ==> a.deep_view()[1] == a@[1]@);
    let cur: bool = state.tag_floats(tag);
    let arg: &str = if a.len() > 1 {
        a[1].as_str()
    } else {
        "toggle"
    };
    if same(arg, "status") {
        return if cur {
            "on\n".to_owned()
        } else {
            "off\n".to_owned()
        };
    }
    if switch(arg, cur) {
        if !cur {
            state.floating_tags.push(tag);
        }
    } else {
        let left = tags_without(&state.floating_tags, tag);
        state.floating_tags = left;
    }
    state.request_manage();
    ok()
}

/// Makes a window float, or float no more.
fn set_window_float(state: &mut State, id: WinId, cur: bool, want: bool)
    requires
        old(state)@.wf(),
    ensures
        final(state)@ == switch_float(old(state)@, id, cur, want),
        final(state)@.wf(),
{
    if want && !cur {
        let geo = state.last_or_default(id);
        state.make_floating(id, geo);
    } else if !want && cur {
        if let Some(w) = state.win_mut(id) {
            w.floating = false;
        }
    }
}

fn cmd_float_window(state: &mut State, a: &[String]) -> (r: String)
    requires
        old(state)@.wf(),
    ensures
        (final(state)@, r@) == float_window(old(state)@, a.deep_view()),
        final(state)@.wf(),
{
    assert(a@.len() > 0 ==> a.deep_view()[0] == a@[0]@);
    match state.focused_window() {
        None => err("floating: no focused window"),
        Some(id) => {
            let arg: &str = if a.len() > 0 {
                a[0].as_str()
            } else {
                "toggle"
            };
            let i: usize = state.find_win(id);
            let cur: bool = i < state.windows.len() && state.windows[i].floating;
            set_window_float(state, id, cur, switch(arg, cur));
            state.request_manage();
            ok()
        },
    }
}

pub fn cmd_floating(state: &mut State, a: &[String]) -> (r: String)
    requires
        old(state)@.wf(),
    ensures
        (final(state)@, r@) == floating(old(state)@, a.deep_view()),
        final(state)@.wf(),
{
    assert(a@.len() > 0 ==> a.deep_view()[0] == a@[0]@);
    let tagged: Option<TagId> = if a.len() > 0 {
        parse_tag(a[0].as_str())
    } else {
        None
    };
    match tagged {
        Some(tag) => cmd_float_tag(state, tag, a),
        None => cmd_float_window(state, a),
    }
}

/// A window made to float at a place, wherever it was.
pub open spec fn float_at(w: World, id: WinId, geo: Rect) -> World {
    let v = w.make_floating(id, geo);
    v.with_win(id, Window { floating: true, float_geo: geo, ..v.win(id) })
}

/// Makes a window float at a place, wherever it was.
pub fn set_float_geo(state: &mut State, id: WinId, geo: Rect)
    requires
        old(state)@.wf(),
    ensures
        final(state)@ == float_at(old(state)@, id, geo),
        final(state)@.wf(),
{
    state.make_floating(id, geo);
    if let Some(w) = state.win_mut(id) {
        w.floating = true;
        w.float_geo = geo;
    }
}

/// `floating_geometry <rect>`.
pub open spec fn floating_geometry(w: World, a: Seq<Text>) -> (World, Text) {
    if a.len() == 0 || rect_text(a[0]) is None {
        (w, err_text("floating_geometry: expected WxH+X+Y"@))
    } else {
        match w.focused_window() {
            None => (w, err_text("floating_geometry: no focused window"@)),
            Some(id) => (float_at(w, id, rect_text(a[0])->0).manage(), ok_text()),
        }
    }
}

pub fn cmd_floating_geometry(state: &mut State, a: &[String]) -> (r: String)
    requires
        old(state)@.wf(),
    ensures
        (final(state)@, r@) == floating_geometry(old(state)@, a.deep_view()),
        final(state)@.wf(),
{
    if a.len() == 0 {
        return err("floating_geometry: expected WxH+X+Y");
    }
    assert(a.deep_view()[0] == a@[0]@);
    match Rect::parse(a[0].as_str()) {
        None => err("floating_geometry: expected WxH+X+Y"),
        Some(g) => match state.focused_window() {
            None => err("floating_geometry: no focused window"),
            Some(id) => {
                set_float_geo(state, id, g);
                state.request_manage();
                ok()
            },
        },
    }
}

/// The edge that a text says.
pub open spec fn dock_text(s: Text) -> Option<DockAnchor> {
    let t = lower(s);
    if t == "top"@ || t == "on"@ || t == "true"@ || t == "1"@ || t == "yes"@ {
        Some(DockAnchor::Top)
    } else if t == "bottom"@ || t == "bot"@ {
        Some(DockAnchor::Bottom)
    } else {
        None
    }
}

/// Reads an edge.
pub fn parse_dock(s: &str) -> (r: Option<DockAnchor>)
    ensures
        r == dock_text(s@),
{
    let low = lowered(s);
    let t = low.as_str();
    if same(t, "top") || same(t, "on") || same(t, "true") || same(t, "1") || same(t, "yes") {
        Some(DockAnchor::Top)
    } else if same(t, "bottom") || same(t, "bot") {
        Some(DockAnchor::Bottom)
    } else {
        None
    }
}

/// `dock [top|bottom|off]`: the focused window made a bar, or no longer one.
pub open spec fn dock(w: World, a: Seq<Text>) -> (World, Text) {
    match w.focused_window() {
        None => (w, err_text("dock: no focused window"@)),
        Some(id) => {
            let arg = if a.len() > 0 {
                a[0]
            } else {
                "top"@
            };
            let v = if arg == "off"@ || arg == "none"@ || arg == "false"@ {
                w.with_win(id, Window { dock: None, ..w.win(id) })
            } else {
                w.make_dock(
                    id,
                    match dock_text(arg) {
                        Some(d) => d,
                        None => DockAnchor::Top,
                    },
                )
            };
            (v.manage(), ok_text())
        },
    }
}

pub fn cmd_dock(state: &mut State, a: &[String]) -> (r: String)
    requires
        old(state)@.wf(),
    ensures
        (final(state)@, r@) == dock(old(state)@, a.deep_view()),
        final(state)@.wf(),
{
    match state.focused_window() {
        None => err("dock: no focused window"),
        Some(id) => {
            assert(a@.len() > 0 ==> a.deep_view()[0] == a@[0]@);
            let arg: &str = if a.len() > 0 {
                a[0].as_str()
            } else {
                "top"
            };
            if same(arg, "off") || same(arg, "none") || same(arg, "false") {
                if let Some(w) = state.win_mut(id) {
                    w.dock = None;
                }
            } else {
                let anchor = match parse_dock(arg) {
                    Some(d) => d,
                    None => DockAnchor::Top,
                };
                state.make_dock(id, anchor);
            }
            state.request_manage();
            ok()
        },
    }
}

} // verus!
