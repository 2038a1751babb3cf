//! What is read of the desktop by its paths, and how windows are found, gathered and docked.

use vstd::prelude::*;
use crate::attr::{attr_value, first_value, set_monitor};
use crate::cmd_window::{adopt, attended, dock, focus_win, jumpto, merge_tag, urgent_place};
use crate::frame::{LayoutMode, Placement, WinId};
use crate::frame_laws::{law_insert, population};
use crate::layout::{tag_gap, tile, Layer};
use crate::monitor::{Rect, TagId};
use crate::number::{law_unsigned_round_trip, show, unsigned};
use crate::render::{dimmed_one, overlay_of, DimOrder};
use crate::round_trip::{lemma_fields_concat, lemma_fields_single};
use crate::rule_laws::{lemma_dock_keeps, lemma_found};
use crate::rules::DockAnchor;
use crate::state::{
    lemma_tree_wf, lemma_win_place, lemma_with_tree_wf, lemma_with_win_wf, sound_trees, Overlay, Window, World,
};
use crate::table::law_put;
use crate::text::{fields, lower, Class, Text};
use crate::tree::{bare_leaf, Tree};

verus! {

// --- windows found ----------------------------------------------------------------------

proof fn lemma_urgent_place(windows: Seq<Window>)
    ensures
        0 <= urgent_place(windows) <= windows.len(),
        urgent_place(windows) < windows.len() ==> windows[urgent_place(windows)].urgent,
        forall|i: int| 0 <= i < urgent_place(windows) ==> !(#[trigger] windows[i]).urgent,
    decreases windows.len(),
{
    if windows.len() > 0 && !windows[0].urgent {
        lemma_urgent_place(windows.drop_first());
        assert forall|i: int| 0 <= i < urgent_place(windows) implies !(#[trigger] windows[i]).urgent by {
            if i > 0 {
                assert(windows.drop_first()[i - 1] == windows[i]);
            }
        }
    }
}

/// Where a window is urgent, a jump leads to the first that is; where none is, it fails, and
/// nothing changes.
pub proof fn law_jump_to_urgent(w: World, i: int)
    requires
        0 <= i < w.windows.len(),
        w.windows[i].urgent,
        forall|j: int| 0 <= j < i ==> !(#[trigger] w.windows[j]).urgent,
    ensures
        jumpto(w, seq!["urgent"@]).0 == focus_win(w, w.windows[i].id).manage(),
        jumpto(World { windows: w.windows.take(i), ..w }, seq!["urgent"@]).0 == (World {
            windows: w.windows.take(i),
            ..w
        }),
{
    lemma_urgent_place(w.windows);
    let p = urgent_place(w.windows);
    if p < i {
        assert(w.windows[p].urgent);
    }
    if p > i {
        assert(!w.windows[i].urgent);
    }
    lemma_win_place(w.windows, w.windows[i].id);
    let few = w.windows.take(i);
    lemma_urgent_place(few);
    let q = urgent_place(few);
    if q < few.len() {
        assert(few[q] == w.windows[q]);
    }
}

/// A jump to a number leads to the window of that number, and to no other.
pub proof fn law_jump_to(w: World, id: WinId)
    ensures
        w.has_win(id) ==> jumpto(w, seq![show(id as nat)]).0 == focus_win(w, id).manage(),
        !w.has_win(id) ==> jumpto(w, seq![show(id as nat)]).0 == w,
{
    law_unsigned_round_trip(id as nat, u64::MAX as int);
    reveal_strlit("urgent");
    assert("urgent"@[0] == 'u');
    if show(id as nat) == "urgent"@ {
        assert(unsigned("urgent"@, u64::MAX as int) == Some(id as int));
        assert(!crate::number::is_digit('u'));
    }
}

/// A window that was attended to is not urgent; it lies above what was last raised only
/// where it floats and that is set.
pub proof fn law_attended(w: World, id: WinId)
    requires
        w.has_win(id),
    ensures
        ({
            let v = attended(w, id);
            let up = w.settings.raise_on_focus && w.floats(w.win(id));
            &&& v.has_win(id) && !v.win(id).urgent
            &&& up ==> v.win(id).raise_seq == w.next_raise
            &&& !up ==> v.win(id).raise_seq == w.win(id).raise_seq && v.next_raise == w.next_raise
            &&& v.win(id).tag == w.win(id).tag && v.win(id).floating == w.win(id).floating
            &&& v.win(id).fullscreen == w.win(id).fullscreen
            &&& v.trees == w.trees && v.desk == w.desk
        }),
{
    lemma_win_place(w.windows, id);
    let calm = Window { urgent: false, ..w.win(id) };
    lemma_found(w, id, calm);
    lemma_found(w, id, Window { raise_seq: w.next_raise, ..calm });
}

// --- tags gathered ----------------------------------------------------------------------

/// The tree that a tag is given is the one that it has; other tags keep theirs.
pub proof fn lemma_given(w: World, tag: TagId, t: Tree, other: TagId)
    requires
        sound_trees(w.trees),
    ensures
        w.with_tree(tag, t).tree(tag) == Some(t),
        other != tag ==> w.with_tree(tag, t).tree(other) == w.tree(other),
{
    reveal(sound_trees);
    law_put(w.trees, tag as u64, t, other as u64);
    law_put(w.trees, tag as u64, t, tag as u64);
}

proof fn lemma_adopted(w: World, ids: Seq<WinId>, tag: TagId, other: TagId)
    requires
        w.wf(),
    ensures
        ({
            let v = adopt(w, ids, tag);
            &&& v.wf()
            &&& v.desk == w.desk && v.settings == w.settings
            &&& population(v.tree_or_new(tag)) == population(w.tree_or_new(tag)).add(ids.to_multiset())
            &&& other != tag ==> v.tree(other) == w.tree(other)
        }),
    decreases ids.len(),
{
    broadcast use vstd::multiset::group_multiset_axioms;

    if ids.len() == 0 {
        assert(ids.to_multiset() =~= vstd::multiset::Multiset::empty()) by {
            assert(ids =~= Seq::<WinId>::empty());
            ids.to_multiset_ensures();
        }
        assert(population(w.tree_or_new(tag)) =~= population(w.tree_or_new(tag)).add(ids.to_multiset()));
    } else {
        let front = ids.drop_last();
        lemma_adopted(w, front, tag, other);
        let v = adopt(w, front, tag);
        let id = ids.last();
        let u = v.with_win(id, Window { tag, ..v.win(id) });
        lemma_win_place(v.windows, id);
        if v.has_win(id) {
            lemma_with_win_wf(v, id, Window { tag, ..v.win(id) });
        }
        assert(u.wf());
        lemma_tree_wf(u, tag);
        let t = u.tree_or_new(tag);
        assert(t == v.tree_or_new(tag));
        law_insert(t, id);
        lemma_given(u, tag, t.insert(id), other);
        lemma_with_tree_wf(u, tag, t.insert(id));
        front.to_multiset_ensures();
        assert(ids =~= front.push(id));
        assert(front.push(id).to_multiset() =~= front.to_multiset().insert(id));
        assert(population(t.insert(id)) =~= population(w.tree_or_new(tag)).add(ids.to_multiset()));
    }
}

/// When a tag is merged into another, all of its windows stand in the frames of the other,
/// beside those that stood there, and none is left behind; other tags are as they were.
pub proof fn law_merged(w: World, src: TagId, target: TagId, other: TagId)
    requires
        w.wf(),
        src != target,
        other != src,
        other != target,
        w.tree(src) is Some,
    ensures
        ({
            let v = merge_tag(w, seq![show(src as nat), show(target as nat)]).0;
            &&& v.tree(src) is Some && v.tree(src)->0.windows().len() == 0
            &&& population(v.tree_or_new(target)) == population(w.tree_or_new(target)).add(population(w.tree(src)->0))
            &&& v.tree(other) == w.tree(other)
            &&& v.desk == w.desk
        }),
{
    law_unsigned_round_trip(src as nat, u32::MAX as int);
    law_unsigned_round_trip(target as nat, u32::MAX as int);
    let empty = bare_leaf(LayoutMode::Vertical);
    let t = w.tree(src)->0;
    let u = w.with_tree(src, empty);
    reveal_with_fuel(Tree::wf, 2);
    assert(empty.wf());
    lemma_with_tree_wf(w, src, empty);
    lemma_given(w, src, empty, target);
    lemma_given(w, src, empty, other);
    assert(u.tree_or_new(target) == w.tree_or_new(target));
    lemma_adopted(u, t.windows(), target, src);
    lemma_adopted(u, t.windows(), target, other);
}

// --- bars -------------------------------------------------------------------------------

/// A window that is docked lies at the edge that is named, the upper one where none is; one
/// that is not docked any more is no bar.
pub proof fn law_docked(w: World, id: WinId)
    requires
        w.wf(),
        w.focused_window() == Some(id),
        w.has_win(id),
    ensures
        dock(w, seq!["top"@]).0.win(id).dock == Some(DockAnchor::Top),
        dock(w, seq!["bottom"@]).0.win(id).dock == Some(DockAnchor::Bottom),
        dock(w, Seq::empty()).0.win(id).dock == Some(DockAnchor::Top),
        dock(w, seq!["off"@]).0.win(id) == (Window { dock: None, ..w.win(id) }),
        !dock(w, seq!["bottom"@]).0.win(id).floating,
{
    reveal_strlit("top");
    reveal_strlit("bottom");
    reveal_strlit("off");
    reveal_strlit("none");
    reveal_strlit("false");
    reveal_strlit("on");
    reveal_strlit("true");
    reveal_strlit("1");
    reveal_strlit("yes");
    reveal_strlit("bot");
    lemma_lower_word();
    assert("top"@.len() == 3 && "bottom"@.len() == 6 && "off"@.len() == 3 && "none"@.len() == 4 && "false"@.len() == 5);
    assert("on"@.len() == 2 && "true"@.len() == 4 && "1"@.len() == 1 && "yes"@.len() == 3 && "bot"@.len() == 3);
    assert("top"@[0] == 't' && "off"@[0] == 'o');
    lemma_win_place(w.windows, id);
    lemma_dock_keeps(w, id, DockAnchor::Top);
    lemma_dock_keeps(w, id, DockAnchor::Bottom);
    lemma_found(w, id, Window { dock: None, ..w.win(id) });
}

proof fn lemma_lower_word()
    ensures
        lower("top"@) == "top"@,
        lower("bottom"@) == "bottom"@,
{
    reveal_strlit("top");
    reveal_strlit("bottom");
    assert(lower("top"@) =~= "top"@);
    assert(lower("bottom"@) =~= "bottom"@);
}

// --- frames and layers ------------------------------------------------------------------

/// The frames of a tag lie apart by the gap, but for a frame that is alone where that is
/// wanted.
pub proof fn law_gap(w: World, tag: TagId)
    ensures
        !w.settings.smart_frame_surroundings ==> tag_gap(w, tag) == w.settings.window_gap,
        w.tree(tag) is Some && w.tree(tag)->0.leaves() > 1 ==> tag_gap(w, tag) == w.settings.window_gap,
        w.settings.smart_frame_surroundings && w.tree(tag) is Some && w.tree(tag)->0 is Leaf ==> tag_gap(w, tag) == 0,
{
    reveal_with_fuel(Tree::leaves, 2);
}

/// A window in a frame is drawn where its frame puts it; above all frames where it fills the
/// screen.
pub proof fn law_tile(w: World, mi: usize, p: Placement)
    ensures
        tile(w, mi, p).win == p.win && tile(w, mi, p).rect == p.rect && tile(w, mi, p).visible == p.visible,
        tile(w, mi, p).mon == mi,
        w.has_win(p.win) && w.win(p.win).fullscreen <==> tile(w, mi, p).layer == Layer::Fullscreen,
        tile(w, mi, p).layer == Layer::Fullscreen || tile(w, mi, p).layer == Layer::Tiled,
{
}

/// A window that is to be darkened is, and once only while it keeps its size; one that is
/// not is darkened no more.
pub proof fn law_darkened(w: World, id: WinId, r: Rect)
    requires
        crate::table::keys_differ(w.overlays),
    ensures
        ({
            let (v, orders) = dimmed_one(w, id, Some(r), false);
            let (u, again) = dimmed_one(v, id, Some(r), false);
            let (x, gone) = dimmed_one(v, id, None, false);
            &&& overlay_of(v, id).shown && overlay_of(v, id).w == r.w && overlay_of(v, id).h == r.h
            &&& again.len() == 0 && u == v
            &&& gone == seq![DimOrder::Hide(id)] && !overlay_of(x, id).shown
            &&& !overlay_of(w, id).shown ==> orders.len() == 1 && orders[0] is Show
            &&& dimmed_one(w, id, Some(r), true).1.len() == 1
            &&& !overlay_of(w, id).shown ==> dimmed_one(w, id, None, false) == (w, Seq::<DimOrder>::empty())
        }),
{
    let (v, orders) = dimmed_one(w, id, Some(r), false);
    law_put(w.overlays, id, Overlay { shown: true, w: r.w, h: r.h }, id);
    let o = overlay_of(v, id);
    law_put(v.overlays, id, Overlay { shown: false, ..o }, id);
}

// --- paths ------------------------------------------------------------------------------

proof fn lemma_two_steps(a: Text, b: Text)
    requires
        !a.contains('.'),
        !b.contains('.'),
    ensures
        fields(a + seq!['.'] + b, Class::Is('.')) == seq![a, b],
{
    let k = Class::Is('.');
    lemma_fields_concat(a, '.', b, k);
    assert forall|i: int| 0 <= i < a.len() implies !k.has(#[trigger] a[i]) by {
        assert(a.contains(a[i]));
    }
    assert forall|i: int| 0 <= i < b.len() implies !k.has(#[trigger] b[i]) by {
        assert(b.contains(b[i]));
    }
    lemma_fields_single(a, k);
    lemma_fields_single(b, k);
    assert(seq![a] + seq![b] =~= seq![a, b]);
}

proof fn lemma_plain(s: Text, a: Text, b: Text)
    requires
        s == a + seq!['.'] + b,
        !a.contains('.'),
        !b.contains('.'),
        a.len() > 0,
        b.len() > 0,
    ensures
        crate::attr::steps_of(s) == seq![a, b],
{
    lemma_two_steps(a, b);
}

/// How many windows, tags and monitors there are, and which is focused, is read under their
/// names.
pub proof fn law_counts_read(w: World)
    ensures
        attr_value(w, "clients.count"@) == Ok::<Text, Text>(show(w.windows.len())),
        attr_value(w, "tags.count"@) == Ok::<Text, Text>(show(w.trees.len())),
        attr_value(w, "tags.focus"@) == Ok::<Text, Text>(show(w.focused_tag() as nat)),
        attr_value(w, "monitors.count"@) == Ok::<Text, Text>(show(w.desk.list.len())),
        attr_value(w, "monitors.focus"@) == Ok::<Text, Text>(show(w.desk.focus as nat)),
{
    reveal_strlit("clients");
    reveal_strlit("tags");
    reveal_strlit("monitors");
    reveal_strlit("settings");
    reveal_strlit("count");
    reveal_strlit("focus");
    reveal_strlit("clients.count");
    reveal_strlit("tags.count");
    reveal_strlit("tags.focus");
    reveal_strlit("monitors.count");
    reveal_strlit("monitors.focus");
    assert("clients"@.len() == 7 && "tags"@.len() == 4 && "monitors"@.len() == 8 && "settings"@.len() == 8);
    assert("monitors"@[0] == 'm' && "settings"@[0] == 's' && "count"@[0] == 'c' && "focus"@[0] == 'f');
    assert("clients.count"@ =~= "clients"@ + seq!['.'] + "count"@);
    assert("tags.count"@ =~= "tags"@ + seq!['.'] + "count"@);
    assert("tags.focus"@ =~= "tags"@ + seq!['.'] + "focus"@);
    assert("monitors.count"@ =~= "monitors"@ + seq!['.'] + "count"@);
    assert("monitors.focus"@ =~= "monitors"@ + seq!['.'] + "focus"@);
    lemma_plain("clients.count"@, "clients"@, "count"@);
    lemma_plain("tags.count"@, "tags"@, "count"@);
    lemma_plain("tags.focus"@, "tags"@, "focus"@);
    lemma_plain("monitors.count"@, "monitors"@, "count"@);
    lemma_plain("monitors.focus"@, "monitors"@, "focus"@);
}

/// A setting is read under its name.
pub proof fn law_setting_read(w: World, name: Text)
    requires
        name.len() > 0,
        !name.contains('.'),
    ensures
        attr_value(w, "settings"@ + seq!['.'] + name) == crate::attr::setting_value(w.settings, name),
{
    reveal_strlit("settings");
    assert("settings"@.len() == 8);
    lemma_plain("settings"@ + seq!['.'] + name, "settings"@, name);
}

/// What an attribute holds at first, by its type.
pub proof fn law_first_values()
    ensures
        first_value("bool"@) == Some("false"@),
        first_value("int"@) == Some("0"@),
        first_value("uint"@) == Some("0"@),
        first_value("string"@) == Some(""@),
        first_value("color"@) == Some("#000000ff"@),
{
    reveal_strlit("bool");
    reveal_strlit("int");
    reveal_strlit("uint");
    reveal_strlit("string");
    reveal_strlit("color");
    assert("bool"@.len() == 4 && "int"@.len() == 3 && "uint"@.len() == 4 && "string"@.len() == 6 && "color"@.len() == 5);
    assert("bool"@[0] == 'b' && "uint"@[0] == 'u');
}

/// A monitor shows the tag that it is given, unless it is locked to another, and has the name
/// that it is given; other monitors are as they were.
pub proof fn law_monitor_set(w: World, i: int, tag: TagId, name: Text, j: int)
    requires
        0 <= i < w.desk.list.len(),
        0 <= j < w.desk.list.len(),
        j != i,
        name.len() > 0,
    ensures
        ({
            let shown = set_monitor(w, i, "tag"@, show(tag as nat));
            let named = set_monitor(w, i, "name"@, name);
            let m = w.desk.list[i];
            &&& shown is Ok && named is Ok
            &&& m.locked_tag is None || m.locked_tag == Some(tag) ==> shown->Ok_0.desk.list[i].tag == tag
            &&& m.locked_tag is Some && m.locked_tag != Some(tag) ==> shown->Ok_0.desk.list[i].tag == m.tag
            &&& shown->Ok_0.desk.list[i].name == m.name
            &&& named->Ok_0.desk.list[i].name == Some(name) && named->Ok_0.desk.list[i].tag == m.tag
            &&& shown->Ok_0.desk.list[j] == w.desk.list[j] && named->Ok_0.desk.list[j] == w.desk.list[j]
        }),
{
    law_unsigned_round_trip(tag as nat, u32::MAX as int);
    reveal_strlit("tag");
    reveal_strlit("name");
    assert("tag"@.len() == 3 && "name"@.len() == 4);
}

} // verus!
