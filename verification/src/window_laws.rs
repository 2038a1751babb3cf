//! What commands on windows and tags are for: which window moves where, which floats, which
//! lies on top, which gets the focus; and what keys, buttons and swipes lead to.

use vstd::prelude::*;
use crate::cmd_frame::{focus, resize};
use crate::cmd_window::{
    attended, bring, close, float_tag, float_window, floating_geometry, focus_leaf, focus_screen, focus_win,
    indexed_tag, law_walk_all, move_to, restack, tag_position, tag_screen, transfer, use_tag, window_mode,
    without_tag,
};
use crate::events::key_bind_place;
use crate::frame::{dir_named, Dir, WinId};
use crate::frame_laws::{law_focus_window, law_insert, law_remove, population};
use crate::gestures::{gesturebind, gesture_name, is_number, side_name, size_bits, swipe_side};
use crate::keys::{keybind_to, mousebind};
use crate::monitor::{Rect, Screen, TagId};
use crate::number::{law_unsigned_round_trip, show};
use crate::reply::switched;
use crate::rule_laws::{lemma_float_keeps, lemma_focus_keeps, lemma_found};
use crate::state::{lemma_tree_wf, lemma_win_place, sound_trees, Binding, Window, World};
use crate::table::{law_put, value_of};
use crate::text::Text;
use crate::tree::Tree;

verus! {

// --- trees of tags ----------------------------------------------------------------------

/// The tree that a tag was given is its tree, and no other tag has another.
proof fn lemma_given(w: World, tag: TagId, t: Tree, other: TagId)
    requires
        sound_trees(w.trees),
    ensures
        w.with_tree(tag, t).tree(tag) == Some(t),
        other != tag ==> w.with_tree(tag, t).tree(other) == w.tree(other),
{
    reveal(sound_trees);
    law_put(w.trees, tag as u64, t, other as u64);
    law_put(w.trees, tag as u64, t, tag as u64);
}

proof fn lemma_sound(w: World, tag: TagId, t: Tree)
    requires
        w.wf(),
        t.wf(),
    ensures
        w.with_tree(tag, t).wf(),
{
    crate::state::lemma_with_tree_wf(w, tag, t);
}

/// A window that goes to another tag is on it, has the focus of its frames, and is once less
/// on the tag that it was on.
pub proof fn law_transferred(w: World, id: WinId, tag: TagId)
    requires
        w.wf(),
        w.has_win(id),
        w.win(id).tag != tag,
    ensures
        ({
            let v = transfer(w, id, tag);
            let from = w.win(id).tag;
            &&& v.has_win(id)
            &&& v.win(id) == (Window { tag, ..w.win(id) })
            &&& v.tree(tag) is Some
            &&& v.tree(tag)->0.focused_window() == Some(id)
            &&& population(v.tree(tag)->0) == population(w.tree_or_new(tag)).insert(id)
            &&& w.tree(from) is Some ==> v.tree(from) is Some && population(v.tree(from)->0) == population(
                w.tree(from)->0,
            ).remove(id)
            &&& v.desk == w.desk
        }),
{
    let from = w.win(id).tag;
    lemma_win_place(w.windows, id);
    lemma_tree_wf(w, from);
    lemma_tree_wf(w, tag);
    let v1 = w.without_leaf(from, id);
    if w.tree(from) is Some {
        let t = w.tree(from)->0;
        law_remove(t, id);
        lemma_sound(w, from, t.remove(id));
        lemma_given(w, from, t.remove(id), tag);
    }
    assert(v1.wf());
    assert(v1.windows == w.windows);
    let x = Window { tag, ..v1.win(id) };
    lemma_found(v1, id, x);
    let v2 = v1.with_win(id, x);
    crate::state::lemma_with_win_wf(v1, id, x);
    assert(v2.trees == v1.trees);
    assert(v2.tree(tag) == w.tree(tag));
    assert(v2.settings == w.settings);
    let t = v2.tree_or_new(tag);
    assert(t == w.tree_or_new(tag));
    law_insert(t, id);
    lemma_given(v2, tag, t.insert(id), from);
}

/// Windows are moved to the tag that is named, and to no other; where there is no focused
/// window, nothing is.
pub proof fn law_moved_to_tag(w: World, tag: TagId)
    requires
        w.wf(),
        w.focused_window() matches Some(id) && w.has_win(id),
    ensures
        ({
            let id = w.focused_window()->0;
            let v = move_to(w, tag).0;
            v.has_win(id) && v.win(id).tag == tag && v.desk == w.desk
        }),
{
    let id = w.focused_window()->0;
    if w.win(id).tag != tag {
        law_transferred(w, id, tag);
    }
}

/// A window that is brought is on the focused tag, in focus there.
pub proof fn law_brought(w: World, id: WinId)
    requires
        w.wf(),
        w.has_win(id),
        w.tree(w.win(id).tag) is Some,
        w.tree(w.win(id).tag)->0.windows().contains(id),
    ensures
        ({
            let v = bring(w, seq![show(id as nat)]).0;
            &&& v.has_win(id)
            &&& v.win(id).tag == w.focused_tag()
            &&& v.desk == w.desk
            &&& v.tree(w.focused_tag()) is Some
            &&& v.tree(w.focused_tag())->0.focused_window() == Some(id)
        }),
{
    law_unsigned_round_trip(id as nat, u64::MAX as int);
    let to = w.focused_tag();
    if w.win(id).tag != to {
        law_transferred(w, id, to);
    } else {
        let t = w.tree(to)->0;
        lemma_tree_wf(w, to);
        crate::frame_laws::law_fetch(t, id);
        lemma_given(w, to, t.fetch(id), to);
        assert(w.tree_or_new(to) == t);
    }
}

/// A window that gets the focus is the focused one of its tag; where a monitor shows that
/// tag, the focus is on such a monitor, so that it is the focused window of all.
pub proof fn law_focused_window(w: World, id: WinId)
    requires
        w.wf(),
        w.has_win(id),
        w.tree(w.win(id).tag) is Some,
        w.tree(w.win(id).tag)->0.windows().contains(id),
    ensures
        ({
            let v = focus_win(w, id);
            let tag = w.win(id).tag;
            &&& v.tree(tag) is Some
            &&& v.tree(tag)->0.focused_window() == Some(id)
            &&& v.tree(tag)->0.windows() == w.tree(tag)->0.windows()
            &&& v.desk.list == w.desk.list
            &&& (exists|i: int| 0 <= i < w.desk.list.len() && (#[trigger] w.desk.list[i]).tag == tag) ==> v.focused_window()
                == Some(id) && v.focused_tag() == tag
            &&& !v.win(id).urgent
        }),
{
    let tag = w.win(id).tag;
    let t = w.tree(tag)->0;
    lemma_win_place(w.windows, id);
    lemma_tree_wf(w, tag);
    law_focus_window(t, id);
    lemma_given(w, tag, t.focus_on(id), tag);
    lemma_focus_keeps(w, id);
    lemma_tag_screen(w.desk.list, tag);
    let v1 = focus_leaf(w, tag, id);
    let v2 = focus_screen(v1, tag);
    let v3 = attended(v2, id);
    assert(v3.trees == v1.trees && v3.desk == v2.desk);
}

proof fn lemma_tag_screen(list: Seq<Screen>, tag: TagId)
    ensures
        0 <= tag_screen(list, tag) <= list.len(),
        tag_screen(list, tag) < list.len() ==> list[tag_screen(list, tag)].tag == tag,
        forall|i: int| 0 <= i < tag_screen(list, tag) ==> (#[trigger] list[i]).tag != tag,
    decreases list.len(),
{
    if list.len() > 0 && list[0].tag != tag {
        lemma_tag_screen(list.drop_first(), tag);
        assert forall|i: int| 0 <= i < tag_screen(list, tag) implies (#[trigger] list[i]).tag != tag by {
            if i > 0 {
                assert(list.drop_first()[i - 1] == list[i]);
            }
        }
    }
}

/// The tag that `use` names is shown on the focused monitor, or on its home where it has
/// one, which then has the focus.
pub proof fn law_used(w: World, tag: TagId)
    requires
        w.wf(),
        value_of(w.tag_monitor, tag as u64) is None,
        0 <= w.desk.focus < w.desk.list.len(),
        w.desk.list[w.desk.focus].locked_tag is None,
    ensures
        ({
            let v = use_tag(w, seq![show(tag as nat)]).0;
            &&& v.focused_tag() == tag
            &&& v.desk.focus == w.desk.focus
            &&& forall|j: int|
                0 <= j < w.desk.list.len() && j != w.desk.focus ==> #[trigger] v.desk.list[j] == w.desk.list[j]
            &&& v.windows == w.windows && v.trees == w.trees
        }),
{
    law_unsigned_round_trip(tag as nat, u32::MAX as int);
}

/// With a plus sign the tag so many places on is used, with a minus sign the one so many
/// places back, round the nine; without a sign the one at that place.
pub proof fn law_used_by_index(w: World, n: nat)
    requires
        1 <= w.focused_tag() <= 9,
        1 <= n <= i32::MAX,
    ensures
        indexed_tag(w, seq![seq!['+'] + show(n)]) == Ok::<TagId, Text>(
            ((w.focused_tag() - 1 + n) % 9 + 1) as TagId,
        ),
        indexed_tag(w, seq![seq!['-'] + show(n)]) == Ok::<TagId, Text>(
            ((w.focused_tag() - 1 - n) % 9 + 1) as TagId,
        ),
        n < 9 ==> indexed_tag(w, seq![show(n)]) == Ok::<TagId, Text>((n + 1) as TagId),
{
    reveal_strlit("--skip-visible");
    crate::number::law_show_reads_back(n);
    let d = show(n);
    let plus = seq!['+'] + d;
    let minus = seq!['-'] + d;
    assert(plus.skip(1) =~= d);
    assert(minus.skip(1) =~= d);
    assert(crate::number::is_digit(d[0]));
    lemma_no_flag(plus);
    lemma_no_flag(minus);
    lemma_no_flag(d);
    law_walk_all(tag_position(w.focused_tag()), false, n as int);
    law_walk_all(tag_position(w.focused_tag()), true, n as int);
    law_unsigned_round_trip(n, usize::MAX as int);
}

proof fn lemma_no_flag(t: Text)
    requires
        t.len() < 2 || t[1] != '-',
    ensures
        !seq![t].contains("--skip-visible"@),
{
    reveal_strlit("--skip-visible");
    assert("--skip-visible"@[1] == '-');
    assert("--skip-visible"@.len() == 14);
}

// --- how a window is --------------------------------------------------------------------

/// `on` switches on, `off` switches off, and `toggle` the other way round; twice is back.
pub proof fn law_switch(cur: bool)
    ensures
        switched("on"@, cur),
        !switched("off"@, cur),
        switched("toggle"@, cur) == !cur,
        switched("toggle"@, switched("toggle"@, cur)) == cur,
{
    reveal_strlit("on");
    reveal_strlit("off");
    reveal_strlit("toggle");
    reveal_strlit("true");
    reveal_strlit("false");
    assert("on"@.len() == 2 && "off"@.len() == 3 && "toggle"@.len() == 6 && "true"@.len() == 4 && "false"@.len()
        == 5);
}

/// `fullscreen` and `pseudotile` switch the one of the focused window, leave the other
/// alone, and change no other window.
pub proof fn law_modes(w: World, arg: Text, full: bool, other: int)
    requires
        w.wf(),
        w.focused_window() matches Some(id) && w.has_win(id),
        0 <= other < w.windows.len(),
    ensures
        ({
            let id = w.focused_window()->0;
            let x = w.win(id);
            let v = window_mode(w, seq![arg], full).0;
            &&& v.has_win(id)
            &&& full ==> v.win(id) == (Window { fullscreen: switched(arg, x.fullscreen), ..x })
            &&& !full ==> v.win(id) == (Window { pseudotile: switched(arg, x.pseudotile), ..x })
            &&& v.windows.len() == w.windows.len()
            &&& w.windows[other].id != id ==> v.windows[other] == w.windows[other]
        }),
{
    let id = w.focused_window()->0;
    let x = w.win(id);
    lemma_win_place(w.windows, id);
    lemma_found(w, id, Window { fullscreen: switched(arg, x.fullscreen), ..x });
    lemma_found(w, id, Window { pseudotile: switched(arg, x.pseudotile), ..x });
}

/// `floating` makes the focused window float, where it was last, or float no more.
pub proof fn law_floats(w: World, arg: Text)
    requires
        w.wf(),
        w.focused_window() matches Some(id) && w.has_win(id),
    ensures
        ({
            let id = w.focused_window()->0;
            let x = w.win(id);
            let y = float_window(w, seq![arg]).0.win(id);
            &&& y.floating == switched(arg, x.floating)
            &&& y.floating && !x.floating && value_of(w.last_rects, id) is Some ==> y.float_geo == value_of(
                w.last_rects,
                id,
            )->0
            &&& x.floating ==> y.float_geo == x.float_geo
            &&& y.tag == x.tag && y.id == x.id && y.fullscreen == x.fullscreen
        }),
{
    let id = w.focused_window()->0;
    let x = w.win(id);
    lemma_win_place(w.windows, id);
    lemma_found(
        w,
        id,
        Window { floating: true, float_geo: w.last_or_default(id), raise_seq: w.next_raise, ..x },
    );
    lemma_found(w, id, Window { floating: false, ..x });
}

/// A tag that floats has every window of it float, and one that floats no more has not.
pub proof fn law_floating_tag(w: World, tag: TagId, arg: Text, x: Window)
    requires
        x.tag == tag,
        !x.floating,
        arg != "status"@,
    ensures
        ({
            let v = float_tag(w, tag, seq![show(tag as nat), arg]).0;
            &&& v.floats(x) == switched(arg, w.floating_tags.contains(tag))
            &&& forall|t: TagId|
                t != tag ==> (#[trigger] v.floating_tags.contains(t) <==> w.floating_tags.contains(t))
        }),
{
    let v = float_tag(w, tag, seq![show(tag as nat), arg]).0;
    lemma_without_tag(w.floating_tags, tag);
    assert forall|t: TagId| t != tag implies (#[trigger] v.floating_tags.contains(t) <==> w.floating_tags.contains(t)) by {
        if w.floating_tags.contains(t) && v.floating_tags == w.floating_tags.push(tag) {
            let k = choose|k: int| 0 <= k < w.floating_tags.len() && w.floating_tags[k] == t;
            assert(v.floating_tags[k] == t);
        }
    }
    if v.floating_tags == w.floating_tags.push(tag) {
        assert(v.floating_tags[w.floating_tags.len() as int] == tag);
    }
}

proof fn lemma_without_tag(tags: Seq<TagId>, tag: TagId)
    ensures
        forall|t: TagId| #[trigger] without_tag(tags, tag).contains(t) <==> tags.contains(t) && t != tag,
    decreases tags.len(),
{
    if tags.len() > 0 {
        let front = tags.drop_last();
        lemma_without_tag(front, tag);
        let now = without_tag(tags, tag);
        assert forall|t: TagId| #[trigger] now.contains(t) <==> tags.contains(t) && t != tag by {
            if now.contains(t) {
                let k = choose|k: int| 0 <= k < now.len() && now[k] == t;
                if tags.last() != tag && k == now.len() - 1 {
                    assert(tags[tags.len() - 1] == t);
                } else {
                    assert(without_tag(front, tag)[k] == t);
                    assert(without_tag(front, tag).contains(t));
                    let j = choose|j: int| 0 <= j < front.len() && front[j] == t;
                    assert(tags[j] == t);
                }
            }
            if tags.contains(t) && t != tag {
                let k = choose|k: int| 0 <= k < tags.len() && tags[k] == t;
                if k < front.len() {
                    assert(front[k] == t);
                    assert(without_tag(front, tag).contains(t));
                    let j = choose|j: int| 0 <= j < without_tag(front, tag).len() && without_tag(front, tag)[j] == t;
                    assert(now[j] == t);
                } else {
                    assert(now[now.len() - 1] == t);
                }
            }
        }
    }
}

/// `floating_geometry` makes the focused window float at exactly that place.
pub proof fn law_floats_at(w: World, r: Rect)
    requires
        w.wf(),
        r.h >= 0,
        w.focused_window() matches Some(id) && w.has_win(id),
    ensures
        ({
            let id = w.focused_window()->0;
            let y = floating_geometry(w, seq![crate::monitor::show_rect(r)]).0.win(id);
            y.floating && y.float_geo == r && y.tag == w.win(id).tag
        }),
{
    crate::monitor::law_rect_round_trip(r);
    let id = w.focused_window()->0;
    lemma_win_place(w.windows, id);
    let v = w.make_floating(id, r);
    lemma_float_keeps(w, id, r);
    if !w.win(id).floating {
        lemma_found(w, id, Window { floating: true, float_geo: r, raise_seq: w.next_raise, ..w.win(id) });
    }
    lemma_found(v, id, Window { floating: true, float_geo: r, ..v.win(id) });
}

/// The focused window that is raised comes to lie higher than any other, as long as heights
/// are handed out in order.
pub proof fn law_raised(w: World, i: int)
    requires
        w.wf(),
        w.focused_window() matches Some(id) && w.has_win(id),
        0 <= i < w.windows.len(),
        w.windows[i].id != w.focused_window()->0,
        w.windows[i].raise_seq < w.next_raise < u64::MAX,
    ensures
        ({
            let id = w.focused_window()->0;
            let v = restack(w, true);
            &&& v.windows[i] == w.windows[i]
            &&& v.win(id).raise_seq > v.windows[i].raise_seq
            &&& v.next_raise > v.win(id).raise_seq
        }),
{
    let id = w.focused_window()->0;
    lemma_win_place(w.windows, id);
    lemma_found(w, id, Window { raise_seq: w.next_raise, ..w.win(id) });
}

/// `close` asks the focused window to close, and no other.
pub proof fn law_close_focused(w: World)
    requires
        w.focused_window() is Some,
    ensures
        close(w).0.pending_close == w.pending_close + seq![w.focused_window()->0],
        close(w).0.windows == w.windows,
{
    assert(w.pending_close.push(w.focused_window()->0) =~= w.pending_close + seq![w.focused_window()->0]);
}

// --- keys, buttons, swipes --------------------------------------------------------------

proof fn lemma_key_bind_place(s: Seq<Binding>, id: u64)
    ensures
        0 <= key_bind_place(s, id) <= s.len(),
        key_bind_place(s, id) < s.len() ==> s[key_bind_place(s, id)].id == id,
        forall|i: int| 0 <= i < key_bind_place(s, id) ==> (#[trigger] s[i]).id != id,
    decreases s.len(),
{
    if s.len() > 0 && s[0].id != id {
        lemma_key_bind_place(s.drop_first(), id);
        assert forall|i: int| 0 <= i < key_bind_place(s, id) implies (#[trigger] s[i]).id != id by {
            if i > 0 {
                assert(s.drop_first()[i - 1] == s[i]);
            }
        }
    }
}

/// A key that was bound leads to the command that it was bound to, and keys that were bound
/// before lead to theirs.
pub proof fn law_key_leads(w: World, mods: u32, keysym: u32, key: Text, command: Seq<Text>, i: int)
    requires
        w.globals.xkb_bindings,
        w.globals.seats > 0,
        command.len() > 0,
        forall|j: int| 0 <= j < w.keybinds.len() ==> (#[trigger] w.keybinds[j]).id != w.next_bind,
        0 <= i < w.keybinds.len() ==> key_bind_place(w.keybinds, w.keybinds[i].id) == i,
    ensures
        ({
            let v = keybind_to(w, Ok((mods, keysym)), seq![key] + command).0;
            let k = key_bind_place(v.keybinds, w.next_bind);
            &&& k < v.keybinds.len()
            &&& v.keybinds[k].command == command
            &&& 0 <= i < w.keybinds.len() ==> ({
                let p = key_bind_place(v.keybinds, w.keybinds[i].id);
                p < v.keybinds.len() && v.keybinds[p].command == w.keybinds[i].command
            })
        }),
{
    let a = seq![key] + command;
    assert(a.skip(1) =~= command);
    let v = keybind_to(w, Ok((mods, keysym)), a).0;
    lemma_key_bind_place(v.keybinds, w.next_bind);
    let n = w.keybinds.len() as int;
    let k = key_bind_place(v.keybinds, w.next_bind);
    assert(v.keybinds[n].id == w.next_bind);
    if k < n {
        assert(v.keybinds[k] == w.keybinds[k]);
    }
    if 0 <= i < n {
        lemma_key_bind_place(v.keybinds, w.keybinds[i].id);
        lemma_key_bind_place(w.keybinds, w.keybinds[i].id);
        let p = key_bind_place(v.keybinds, w.keybinds[i].id);
        assert(v.keybinds[i] == w.keybinds[i]);
        if p < i {
            assert(v.keybinds[p] == w.keybinds[p]);
        }
    }
}

/// A button that is bound to `move` moves windows, and one bound to `resize` or `zoom`
/// resizes them; buttons that were bound before stay.
pub proof fn law_button_leads(w: World, spec: Text, action: Text)
    requires
        crate::keys::button_binding(spec) is Ok,
        w.globals.seats > 0,
        action == "move"@ || action == "resize"@ || action == "zoom"@,
    ensures
        ({
            let v = mousebind(w, seq![spec, action]).0;
            &&& v.mousebinds.len() == w.mousebinds.len() + 1
            &&& v.mousebinds.take(w.mousebinds.len() as int) == w.mousebinds
            &&& v.mousebinds.last().id == w.next_bind
            &&& action == "move"@ ==> !v.mousebinds.last().resize
            &&& action == "resize"@ || action == "zoom"@ ==> v.mousebinds.last().resize
        }),
{
    reveal_strlit("move");
    reveal_strlit("resize");
    reveal_strlit("zoom");
    assert("move"@.len() == 4 && "resize"@.len() == 6 && "zoom"@[0] != "move"@[0]);
    let v = mousebind(w, seq![spec, action]).0;
    assert(v.mousebinds.take(w.mousebinds.len() as int) =~= w.mousebinds);
}

/// The bits of the number of the same size and the other sign.
pub open spec fn turned(b: u64) -> u64 {
    if b >= 0x8000_0000_0000_0000 {
        (b - 0x8000_0000_0000_0000) as u64
    } else {
        (b + 0x8000_0000_0000_0000) as u64
    }
}

/// A swipe goes to the side to which it is longer: to the right or down where it is that
/// way above zero. Turned round, it goes to the opposite side.
pub proof fn law_swipe(dx: u64, dy: u64)
    requires
        is_number(dx),
        is_number(dy),
    ensures
        size_bits(dx) > size_bits(dy) && swipe_side(dx, dy) is Some ==> swipe_side(dx, dy) == Some(
            if dx < 0x8000_0000_0000_0000 {
                Dir::Right
            } else {
                Dir::Left
            },
        ),
        size_bits(dy) > size_bits(dx) && swipe_side(dx, dy) is Some ==> swipe_side(dx, dy) == Some(
            if dy < 0x8000_0000_0000_0000 {
                Dir::Down
            } else {
                Dir::Up
            },
        ),
        size_bits(dx) == size_bits(dy) && swipe_side(dx, dy) is Some ==> swipe_side(dx, dy) == Some(
            if dx < 0x8000_0000_0000_0000 {
                Dir::Right
            } else {
                Dir::Left
            },
        ),
        swipe_side(dx, dy) is Some <==> size_bits(dx) >= 0x4044_0000_0000_0000 || size_bits(dy)
            >= 0x4044_0000_0000_0000,
        swipe_side(turned(dx), turned(dy)) == (match swipe_side(dx, dy) {
            Some(d) => Some(crate::direction_laws::across(d)),
            None => None,
        }),
{
}

/// The side that a swipe goes to has the name that leads the focus there, so that a swipe
/// bound under that name is found.
pub proof fn law_swipe_named(w: World, fingers: int, d: Dir, command: Seq<Text>)
    requires
        2 <= fingers <= 5,
        command.len() > 0,
        crate::table::keys_differ(w.gesturebinds),
    ensures
        dir_named(side_name(d)) == Some(d),
        ({
            let name = gesture_name(fingers, side_name(d));
            let v = gesturebind(w, seq![name] + command).0;
            value_of(v.gesturebinds, name) == Some(command)
        }),
{
    reveal_strlit("left");
    reveal_strlit("right");
    reveal_strlit("up");
    reveal_strlit("down");
    assert("left"@.len() == 4 && "right"@.len() == 5 && "up"@.len() == 2 && "down"@.len() == 4 && "left"@[0]
        != "down"@[0]);
    let name = gesture_name(fingers, side_name(d));
    crate::gestures::law_gesture_name_stays(fingers, side_name(d));
    assert((seq![name] + command).skip(1) =~= command);
    law_put(w.gesturebinds, name, command, name);
}

} // verus!
