//! Commands that write layouts down and read them back.

use std::collections::HashSet;
use vstd::prelude::*;
use vstd::std_specs::hash::*;
use crate::frame::{Frame, Placement, WinId};
use crate::monitor::{push_rect, show_rect, TagId};
use crate::number::{push_i64, push_u64, show, show_int};
use crate::reply::{err, err_text, ok, ok_text, parse_tag, tag_text};
use crate::sexpr::{listing, sexpr, tree_text};
use crate::state::{in_number_order, lemma_tree_wf, lemma_with_tree_wf, State, Window, World};
use crate::table::find_key;
use crate::text::{has_prefix, join, join_from, starts_with, Text};
use crate::tree::Tree;

verus! {

/// The tag that the first argument says, or the focused one.
pub open spec fn tag_or_focused(w: World, a: Seq<Text>) -> TagId {
    if a.len() > 0 && tag_text(a[0]) is Some {
        tag_text(a[0])->0
    } else {
        w.focused_tag()
    }
}

/// `dump [tag]`: the layout string of a tag's tree.
pub open spec fn dump(w: World, a: Seq<Text>) -> Text {
    match w.tree(tag_or_focused(w, a)) {
        Some(t) => sexpr(t) + "\n"@,
        None => "(clients vertical:0)\n"@,
    }
}

/// The tag that the first argument says, or the focused one.
fn read_tag_or_focused(state: &State, a: &[String]) -> (r: TagId)
    requires
        state@.wf(),
    ensures
        r == tag_or_focused(state@, a.deep_view()),
{
    assert(a@.len() > 0 ==> a.deep_view()[0] == a@[0]@);
    let given: Option<TagId> = if a.len() > 0 {
        parse_tag(a[0].as_str())
    } else {
        None
    };
    match given {
        Some(t) => t,
        None => state.focused_tag(),
    }
}

pub fn cmd_dump_layout(state: &State, a: &[String]) -> (r: String)
    requires
        state@.wf(),
    ensures
        r@ == dump(state@, a.deep_view()),
{
    let tag: TagId = read_tag_or_focused(state, a);
    let k: usize = find_key(&state.tags, tag as u64);
    if k < state.tags.len() {
        assert(state@.trees[k as int].1 == state.tags@[k as int].1@);
        proof {
            lemma_tree_wf(state@, tag);
        }
        let mut r = state.tags[k].1.serialize();
        r.append("\n");
        r
    } else {
        "(clients vertical:0)\n".to_owned()
    }
}

/// The numbers of the windows.
pub open spec fn win_ids(windows: Seq<Window>) -> Set<WinId>
    decreases windows.len(),
{
    if windows.len() == 0 {
        Set::empty()
    } else {
        win_ids(windows.drop_last()).insert(windows.last().id)
    }
}

/// The windows on a tag that a tree does not hold.
pub open spec fn strays(windows: Seq<Window>, tag: TagId, held: Seq<WinId>) -> Seq<WinId>
    decreases windows.len(),
{
    if windows.len() == 0 {
        Seq::empty()
    } else {
        let front = strays(windows.drop_last(), tag, held);
        if windows.last().tag == tag && !held.contains(windows.last().id) {
            front.push(windows.last().id)
        } else {
            front
        }
    }
}

/// Windows inserted into a tree, one after the other.
pub open spec fn insert_all(t: Tree, ids: Seq<WinId>) -> Tree
    decreases ids.len(),
{
    if ids.len() == 0 {
        t
    } else {
        insert_all(t, ids.drop_last()).insert(ids.last())
    }
}

/// The windows with those that a tree holds put on a tag.
pub open spec fn claimed(windows: Seq<Window>, held: Seq<WinId>, tag: TagId) -> Seq<Window> {
    windows.map_values(
        |x: Window|
            if held.contains(x.id) {
                Window { tag, ..x }
            } else {
                x
            },
    )
}

/// The tree that a layout becomes on a tag: without the windows that are not there,
/// and with those of the tag that it does not hold.
pub open spec fn settled(w: World, tag: TagId, t: Tree) -> Tree {
    let kept = t.retain(win_ids(w.windows));
    insert_all(kept, strays(w.windows, tag, kept.windows()))
}

/// A layout put on a tag.
pub open spec fn load_layout(w: World, tag: TagId, s: Text) -> Result<World, Text> {
    match tree_text(s) {
        None => Err("load: malformed layout string"@),
        Some(t) => {
            let u = settled(w, tag, t);
            Ok((World { windows: claimed(w.windows, u.windows(), tag), ..w }).with_tree(tag, u).manage())
        },
    }
}

/// `load [tag] <layout>`.
pub open spec fn load(w: World, a: Seq<Text>) -> (World, Text) {
    if a.len() == 0 {
        (w, err_text("load: expected [tag] <layout>"@))
    } else {
        let tagged = !has_prefix(a[0], "("@) && tag_text(a[0]) is Some && a.len() > 1;
        let tag = if tagged {
            tag_text(a[0])->0
        } else {
            w.focused_tag()
        };
        let layout = join(
            if tagged {
                a.skip(1)
            } else {
                a
            },
            " "@,
        );
        match load_layout(w, tag, layout) {
            Ok(v) => (v, ok_text()),
            Err(e) => (w, err_text(e)),
        }
    }
}

/// The numbers of the windows.
fn collect_ids(windows: &Vec<Window>) -> (r: HashSet<WinId>)
    ensures
        r@ == win_ids(windows@),
{
    broadcast use group_hash_axioms;

    let ghost all = windows@;
    let mut r: HashSet<WinId> = HashSet::new();
    let mut i: usize = 0;
    assert(all.take(0) =~= Seq::<Window>::empty());
    assert(r@ =~= win_ids(all.take(0)));
    while i < windows.len()
        invariant
            i <= windows@.len(),
            all == windows@,
            r@ == win_ids(all.take(i as int)),
        decreases windows@.len() - i,
    {
        assert(all.take(i + 1).drop_last() =~= all.take(i as int));
        r.insert(windows[i].id);
        i += 1;
    }
    assert(all.take(i as int) =~= all);
    r
}

/// Whether a window is among those held.
fn is_held(held: &Vec<WinId>, id: WinId) -> (r: bool)
    ensures
        r == held@.contains(id),
{
    crate::frame::find_window(held, id) < held.len()
}

/// Inserts the windows of a tag that a tree does not hold.
fn insert_strays(windows: &Vec<Window>, tag: TagId, frame: &mut Frame)
    requires
        old(frame)@.wf(),
    ensures
        final(frame)@ == insert_all(
            old(frame)@,
            strays(windows@, tag, old(frame)@.windows()),
        ),
        final(frame)@.wf(),
{
    let ghost all = windows@;
    let ghost start = frame@;
    let held = frame.all_windows();
    let mut i: usize = 0;
    assert(all.take(0) =~= Seq::<Window>::empty());
    while i < windows.len()
        invariant
            i <= windows@.len(),
            all == windows@,
            held@ == start.windows(),
            frame@ == insert_all(start, strays(all.take(i as int), tag, held@)),
            frame@.wf(),
        decreases windows@.len() - i,
    {
        proof {
            assert(all.take(i + 1).drop_last() =~= all.take(i as int));
            assert(all.take(i + 1).last() == all[i as int]);
            let front = strays(all.take(i as int), tag, held@);
            assert(front.push(all[i as int].id).drop_last() =~= front);
        }
        if windows[i].tag == tag && !is_held(&held, windows[i].id) {
            frame.insert_window(windows[i].id);
        }
        i += 1;
    }
    assert(all.take(i as int) =~= all);
}

/// Puts the windows that a tree holds on a tag.
fn claim_windows(windows: &mut Vec<Window>, held: &Vec<WinId>, tag: TagId)
    ensures
        final(windows)@ == claimed(old(windows)@, held@, tag),
{
    let ghost target = claimed(windows@, held@, tag);
    let mut i: usize = 0;
    while i < windows.len()
        invariant
            i <= windows@.len() == old(windows)@.len(),
            target == claimed(old(windows)@, held@, tag),
            forall|j: int| 0 <= j < i ==> #[trigger] windows@[j] == target[j],
            forall|j: int| i <= j < windows@.len() ==> #[trigger] windows@[j] == old(windows)@[j],
        decreases windows@.len() - i,
    {
        if is_held(held, windows[i].id) {
            windows[i].tag = tag;
        }
        i += 1;
    }
    assert(windows@ =~= target);
}

proof fn lemma_claimed_order(windows: Seq<Window>, held: Seq<WinId>, tag: TagId, next: WinId)
    requires
        in_number_order(windows, next),
    ensures
        in_number_order(claimed(windows, held, tag), next),
{
    reveal(in_number_order);
}

impl State {
    /// Puts a layout on a tag.
    pub fn load_layout(&mut self, tag: TagId, s: &str) -> (r: Result<(), String>)
        requires
            old(self)@.wf(),
        ensures
            match load_layout(old(self)@, tag, s@) {
                Ok(w) => r is Ok && final(self)@ == w,
                Err(e) => r is Err && r->Err_0@ == e && final(self)@ == old(self)@,
            },
            final(self)@.wf(),
    {
        let ghost w = self@;
        match Frame::deserialize(s) {
            None => Err("load: malformed layout string".to_owned()),
            Some(parsed) => {
                let mut frame = parsed;
                let ids = collect_ids(&self.windows);
                frame.retain_windows(&ids);
                insert_strays(&self.windows, tag, &mut frame);
                let held = frame.all_windows();
                claim_windows(&mut self.windows, &held, tag);
                proof {
                    lemma_claimed_order(w.windows, held@, tag, w.next_win);
                    lemma_with_tree_wf(self@, tag, frame@);
                }
                *self.tag_tree_mut(tag) = frame;
                self.request_manage();
                Ok(())
            },
        }
    }
}

pub fn cmd_load(state: &mut State, a: &[String]) -> (r: String)
    requires
        old(state)@.wf(),
    ensures
        (final(state)@, r@) == load(old(state)@, a.deep_view()),
        final(state)@.wf(),
{
    if a.len() == 0 {
        return err("load: expected [tag] <layout>");
    }
    assert(a.deep_view()[0] == a@[0]@);
    let named: Option<TagId> = parse_tag(a[0].as_str());
    let tagged: bool = !starts_with(a[0].as_str(), "(") && named.is_some() && a.len() > 1;
    let tag: TagId = match named {
        Some(t) => if tagged {
            t
        } else {
            state.focused_tag()
        },
        None => state.focused_tag(),
    };
    let layout = join_from(
        a,
        if tagged {
            1
        } else {
            0
        },
        " ",
    );
    assert(a.deep_view().skip(0) =~= a.deep_view());
    match state.load_layout(tag, layout.as_str()) {
        Ok(()) => ok(),
        Err(e) => err(e.as_str()),
    }
}

/// A line for a window's placement.
pub open spec fn placement_line(p: Placement) -> Text {
    "  win="@ + show(p.win as nat) + " "@ + show_rect(p.rect) + " visible="@ + if p.visible {
        "true"@
    } else {
        "false"@
    } + "\n"@
}

/// A line for each window's placement.
pub open spec fn placement_lines(ps: Seq<Placement>) -> Text
    decreases ps.len(),
{
    if ps.len() == 0 {
        Seq::empty()
    } else {
        placement_lines(ps.drop_last()) + placement_line(ps.last())
    }
}

/// `dump_tree`: the focused tag's tree and where it puts its windows.
pub open spec fn dump_tree(w: World) -> Text {
    let tag = show(w.focused_tag() as nat);
    match w.tree(w.focused_tag()) {
        None => "tag "@ + tag + ": empty\n"@,
        Some(t) => "tag "@ + tag + " area="@ + show_rect(w.focused_area()) + " gap="@ + show_int(
            w.settings.window_gap as int,
        ) + "\n"@ + listing(t, 0) + "placements:\n"@ + placement_lines(
            t.place(w.focused_area(), w.settings.window_gap as int),
        ),
    }
}

fn push_placement(out: &mut String, p: &Placement)
    ensures
        final(out)@ == old(out)@ + placement_line(*p),
{
    out.append("  win=");
    push_u64(out, p.win);
    out.append(" ");
    push_rect(out, p.rect);
    out.append(" visible=");
    out.append(
        if p.visible {
            "true"
        } else {
            "false"
        },
    );
    out.append("\n");
    assert(out@ =~= old(out)@ + placement_line(*p));
}

pub fn cmd_dump_tree(state: &State) -> (r: String)
    requires
        state@.wf(),
    ensures
        r@ == dump_tree(state@),
{
    let tag: TagId = state.focused_tag();
    let area = state.focused_area();
    let gap: i32 = state.settings.window_gap;
    let mut r = "tag ".to_owned();
    push_u64(&mut r, tag as u64);
    let k: usize = find_key(&state.tags, tag as u64);
    if k == state.tags.len() {
        r.append(": empty\n");
        return r;
    }
    assert(state@.trees[k as int].1 == state.tags@[k as int].1@);
    proof {
        lemma_tree_wf(state@, tag);
    }
    r.append(" area=");
    push_rect(&mut r, area);
    r.append(" gap=");
    push_i64(&mut r, gap as i64);
    r.append("\n");
    r.append(state.tags[k].1.describe().as_str());
    r.append("placements:\n");
    let ghost head = r@;
    let ps = state.tags[k].1.placements(area, gap);
    let mut i: usize = 0;
    assert(ps@.take(0) =~= Seq::<Placement>::empty());
    assert(r@ =~= head + placement_lines(ps@.take(0)));
    while i < ps.len()
        invariant
            i <= ps@.len(),
            r@ == head + placement_lines(ps@.take(i as int)),
        decreases ps@.len() - i,
    {
        push_placement(&mut r, &ps[i]);
        i += 1;
        proof {
            assert(ps@.take(i as int).drop_last() =~= ps@.take(i - 1));
            assert(r@ =~= head + placement_lines(ps@.take(i as int)));
        }
    }
    assert(ps@.take(i as int) =~= ps@);
    r
}

/// What `dump` writes of a tag, `load` puts back there: the same tree, with its shares
/// as four decimals give them, where each of its windows is there and it holds all of
/// the tag's.
pub proof fn law_dump_then_load(w: World, tag: TagId, f: Frame)
    requires
        w.wf(),
        f@.wf(),
        w.tree(tag) == Some(f@),
        forall|i: int| 0 <= i < f@.windows().len() ==> win_ids(w.windows).contains(#[trigger] f@.windows()[i]),
        strays(w.windows, tag, f@.windows()) == Seq::<WinId>::empty(),
    ensures
        load_layout(w, tag, sexpr(f@)) is Ok,
        load_layout(w, tag, sexpr(f@))->Ok_0.tree(tag) == Some(
            crate::round_trip::to_four_places_all(f@),
        ),
{
    let t = crate::round_trip::to_four_places_all(f@);
    crate::round_trip::law_layout_round_trip(f);
    let ids = win_ids(w.windows);
    assert forall|i: int| 0 <= i < t.windows().len() implies ids.contains(#[trigger] t.windows()[i]) by {
        assert(t.windows()[i] == f@.windows()[i]);
    }
    lemma_retain_all(t, ids);
    let u = settled(w, tag, t);
    assert(u == t);
    let v = World { windows: claimed(w.windows, u.windows(), tag), ..w };
    assert(crate::table::keys_differ(v.trees)) by {
        reveal(crate::state::sound_trees);
    }
    crate::table::law_put(v.trees, tag as u64, u, 0);
}

proof fn lemma_retain_all(t: Tree, keep: Set<WinId>)
    requires
        t.wf(),
        forall|i: int| 0 <= i < t.windows().len() ==> keep.contains(#[trigger] t.windows()[i]),
    ensures
        t.retain(keep) == t,
    decreases t,
{
    match t {
        Tree::Leaf { windows, .. } => {
            assert forall|i: int| 0 <= i < windows.len() implies keep.contains(
                #[trigger] windows[i],
            ) by {
                assert(t.windows()[i] == windows[i]);
            }
            lemma_filter_all(windows, keep);
        },
        Tree::Split { first, second, .. } => {
            assert forall|i: int| 0 <= i < first.windows().len() implies keep.contains(
                #[trigger] first.windows()[i],
            ) by {
                assert(t.windows()[i] == first.windows()[i]);
            }
            assert forall|i: int| 0 <= i < second.windows().len() implies keep.contains(
                #[trigger] second.windows()[i],
            ) by {
                assert(t.windows()[first.windows().len() + i] == second.windows()[i]);
            }
            lemma_retain_all(*first, keep);
            lemma_retain_all(*second, keep);
        },
    }
}

proof fn lemma_filter_all(windows: Seq<WinId>, keep: Set<WinId>)
    requires
        forall|i: int| 0 <= i < windows.len() ==> keep.contains(#[trigger] windows[i]),
    ensures
        windows.filter(|w: WinId| keep.contains(w)) == windows,
    decreases windows.len(),
{
    reveal(Seq::filter);
    if windows.len() > 0 {
        let front = windows.drop_last();
        assert forall|i: int| 0 <= i < front.len() implies keep.contains(#[trigger] front[i]) by {
            assert(front[i] == windows[i]);
        }
        lemma_filter_all(front, keep);
        assert(front.push(windows.last()) =~= windows);
    }
}

} // verus!
