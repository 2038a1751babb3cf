//! What words lead to: which command carries out what, how values are compared and filled
//! in, and what is read of what was set.

use vstd::prelude::*;
use crate::attr::{client_value, monitor_value, set_client, setting_value};
use crate::cmd_bar::bar;
use crate::cmd_frame::{
    cycle, cycle_all, cycle_frame, cycle_layout, focus, focus_frame, remove, resize, set_layout, shift, split_frame,
};
use crate::cmd_layout::{dump, load};
use crate::cmd_monitor::{
    add_monitor, cycle_monitor, focus_monitor, lock_tag, move_monitor, pad, raise_monitor, remove_monitor,
    rename_monitor, set_monitors, unlock_tag,
};
use crate::cmd_window::{
    bring, close, dock, floating, floating_geometry, jumpto, merge_tag, move_window, restack, shift_to_monitor,
    use_index, use_previous, use_tag, window_mode,
};
use crate::cmd_set::{setting_named, with_setting, Name};
use crate::combine::{filled_in, formatted, holds, mark_count, mark_place, value_or_path};
use crate::double::{Double, WHOLE};
use crate::frame::{LayoutMode, WinId};
use crate::gestures::{gesturebind, gestureunbind};
use crate::keys::{keyunbind, mousebind, mouseunbind};
use crate::monitor::{law_rect_round_trip, rect_text};
use crate::number::{law_signed_round_trip, law_unsigned_round_trip, show_int, signed32, unsigned};
use crate::outputs::detect_monitors;
use crate::reply::{is_yes, ok_text};
use crate::route::{desk_command, frame_command, other_command, set_tag_monitor, window_command};
use crate::rule_laws::{lemma_float_keeps, lemma_found};
use crate::rules::{rule, unrule};
use crate::state::{lemma_win_place, Window, World};
use crate::table::text_before;
use crate::text::Text;
use crate::theme::{dimming, dims, is_dimming, law_color_round_trip, show_color, Color, LauncherTheme, NotifTheme, Settings};

verus! {

// --- words ------------------------------------------------------------------------------

/// Each word for monitors leads to what it says is done with them.
pub proof fn law_monitor_words(w: World, a: Seq<Text>)
    ensures
        desk_command(w, "set_monitors"@, a) == Some(set_monitors(w, a)),
        desk_command(w, "add_monitor"@, a) == Some(add_monitor(w, a)),
        desk_command(w, "raise_monitor"@, a) == Some(raise_monitor(w, a)),
        desk_command(w, "lock_tag"@, a) == Some(lock_tag(w, a)),
        desk_command(w, "pad"@, a) == Some(pad(w, a)),
        desk_command(w, "focus_monitor"@, a) == Some(focus_monitor(w, a)),
        desk_command(w, "cycle_monitor"@, a) == Some(cycle_monitor(w, a)),
        desk_command(w, "detect_monitors"@, a) == Some(detect_monitors(w)),
        desk_command(w, "remove_monitor"@, a) == Some(remove_monitor(w, a)),
        desk_command(w, "unlock_tag"@, a) == Some(unlock_tag(w, a)),
        desk_command(w, "move_monitor"@, a) == Some(move_monitor(w, a)),
        desk_command(w, "rename_monitor"@, a) == Some(rename_monitor(w, a)),
        desk_command(w, "shift_to_monitor"@, a) == Some(shift_to_monitor(w, a)),
        desk_command(w, "set_tag_monitor"@, a) == Some(set_tag_monitor(w, a)),
{
    reveal(desk_command);
    reveal_strlit("set_monitors");
    reveal_strlit("add_monitor");
    reveal_strlit("raise_monitor");
    reveal_strlit("lock_tag");
    reveal_strlit("pad");
    reveal_strlit("focus_monitor");
    reveal_strlit("cycle_monitor");
    reveal_strlit("detect_monitors");
    reveal_strlit("remove_monitor");
    reveal_strlit("unlock_tag");
    reveal_strlit("move_monitor");
    reveal_strlit("rename_monitor");
    reveal_strlit("shift_to_monitor");
    reveal_strlit("set_tag_monitor");
    assert("set_monitors"@.len() == 12 && "add_monitor"@.len() == 11 && "raise_monitor"@.len() == 13 && "lock_tag"@.len() == 8 && "pad"@.len() == 3 && "focus_monitor"@.len() == 13 && "cycle_monitor"@.len() == 13 && "detect_monitors"@.len() == 15 && "remove_monitor"@.len() == 14 && "unlock_tag"@.len() == 10 && "move_monitor"@.len() == 12 && "rename_monitor"@.len() == 14 && "shift_to_monitor"@.len() == 16 && "set_tag_monitor"@.len() == 15);
    assert("set_monitors"@[0] != "move_monitor"@[0]);
    assert("raise_monitor"@[0] != "focus_monitor"@[0]);
    assert("raise_monitor"@[0] != "cycle_monitor"@[0]);
    assert("focus_monitor"@[0] != "cycle_monitor"@[0]);
    assert("detect_monitors"@[0] != "set_tag_monitor"@[0]);
    assert("remove_monitor"@[2] != "rename_monitor"@[2]);
}

/// Each word for windows and tags leads to what it says is done with them.
pub proof fn law_window_words(w: World, a: Seq<Text>)
    ensures
        window_command(w, "use"@, a) == Some(use_tag(w, a)),
        window_command(w, "use_index"@, a) == Some(use_index(w, a)),
        window_command(w, "use_previous"@, a) == Some(use_previous(w)),
        window_command(w, "merge_tag"@, a) == Some(merge_tag(w, a)),
        window_command(w, "move"@, a) == Some(move_window(w, a)),
        window_command(w, "bring"@, a) == Some(bring(w, a)),
        window_command(w, "jumpto"@, a) == Some(jumpto(w, a)),
        window_command(w, "raise"@, a) == Some((restack(w, true), ok_text())),
        window_command(w, "lower"@, a) == Some((restack(w, false), ok_text())),
        window_command(w, "close"@, a) == Some(close(w)),
        window_command(w, "fullscreen"@, a) == Some(window_mode(w, a, true)),
        window_command(w, "pseudotile"@, a) == Some(window_mode(w, a, false)),
        window_command(w, "floating"@, a) == Some(floating(w, a)),
        window_command(w, "floating_geometry"@, a) == Some(floating_geometry(w, a)),
        window_command(w, "dock"@, a) == Some(dock(w, a)),
{
    reveal(window_command);
    reveal_strlit("use");
    reveal_strlit("use_index");
    reveal_strlit("use_previous");
    reveal_strlit("merge_tag");
    reveal_strlit("move");
    reveal_strlit("bring");
    reveal_strlit("jumpto");
    reveal_strlit("raise");
    reveal_strlit("lower");
    reveal_strlit("close");
    reveal_strlit("close_or_remove");
    reveal_strlit("fullscreen");
    reveal_strlit("pseudotile");
    reveal_strlit("floating");
    reveal_strlit("floating_geometry");
    reveal_strlit("dock");
    assert("use"@.len() == 3 && "use_index"@.len() == 9 && "use_previous"@.len() == 12 && "merge_tag"@.len() == 9 && "move"@.len() == 4 && "bring"@.len() == 5 && "jumpto"@.len() == 6 && "raise"@.len() == 5 && "lower"@.len() == 5 && "close"@.len() == 5 && "close_or_remove"@.len() == 15 && "fullscreen"@.len() == 10 && "pseudotile"@.len() == 10 && "floating"@.len() == 8 && "floating_geometry"@.len() == 17 && "dock"@.len() == 4);
    assert("use_index"@[0] != "merge_tag"@[0]);
    assert("move"@[0] != "dock"@[0]);
    assert("bring"@[0] != "raise"@[0]);
    assert("bring"@[0] != "lower"@[0]);
    assert("bring"@[0] != "close"@[0]);
    assert("raise"@[0] != "lower"@[0]);
    assert("raise"@[0] != "close"@[0]);
    assert("lower"@[0] != "close"@[0]);
    assert("fullscreen"@[0] != "pseudotile"@[0]);
}

/// Each word for frames leads to what it says is done with them.
pub proof fn law_frame_words(w: World, a: Seq<Text>)
    ensures
        frame_command(w, "split"@, a) == Some(split_frame(w, a)),
        frame_command(w, "focus"@, a) == Some(focus(w, a)),
        frame_command(w, "shift"@, a) == Some(shift(w, a)),
        frame_command(w, "resize"@, a) == Some(resize(w, a)),
        frame_command(w, "remove"@, a) == Some(remove(w)),
        frame_command(w, "cycle"@, a) == Some(cycle(w, a)),
        frame_command(w, "cycle_all"@, a) == Some(cycle_all(w, a)),
        frame_command(w, "cycle_frame"@, a) == Some(cycle_frame(w, a)),
        frame_command(w, "focus_frame"@, a) == Some(focus_frame(w, a)),
        frame_command(w, "set_layout"@, a) == Some(set_layout(w, a)),
        frame_command(w, "cycle_layout"@, a) == Some(cycle_layout(w)),
        frame_command(w, "dump"@, a) == Some((w, dump(w, a))),
        frame_command(w, "load"@, a) == Some(load(w, a)),
{
    reveal(frame_command);
    reveal_strlit("split");
    reveal_strlit("focus");
    reveal_strlit("shift");
    reveal_strlit("resize");
    reveal_strlit("remove");
    reveal_strlit("cycle");
    reveal_strlit("cycle_all");
    reveal_strlit("cycle_frame");
    reveal_strlit("focus_frame");
    reveal_strlit("set_layout");
    reveal_strlit("cycle_layout");
    reveal_strlit("dump");
    reveal_strlit("load");
    assert("split"@.len() == 5 && "focus"@.len() == 5 && "shift"@.len() == 5 && "resize"@.len() == 6 && "remove"@.len() == 6 && "cycle"@.len() == 5 && "cycle_all"@.len() == 9 && "cycle_frame"@.len() == 11 && "focus_frame"@.len() == 11 && "set_layout"@.len() == 10 && "cycle_layout"@.len() == 12 && "dump"@.len() == 4 && "load"@.len() == 4);
    assert("split"@[0] != "focus"@[0]);
    assert("split"@[1] != "shift"@[1]);
    assert("split"@[0] != "cycle"@[0]);
    assert("focus"@[0] != "shift"@[0]);
    assert("focus"@[0] != "cycle"@[0]);
    assert("shift"@[0] != "cycle"@[0]);
    assert("resize"@[2] != "remove"@[2]);
    assert("cycle_frame"@[0] != "focus_frame"@[0]);
    assert("dump"@[0] != "load"@[0]);
}

/// Each word for settings, rules and bindings leads to what it says is done with them.
pub proof fn law_other_words(w: World, a: Seq<Text>)
    ensures
        other_command(w, "set"@, a) == Some(crate::cmd_set::set(w, a)),
        other_command(w, "bar"@, a) == Some(bar(w, a)),
        other_command(w, "rule"@, a) == Some(rule(w, a)),
        other_command(w, "unrule"@, a) == Some(unrule(w)),
        other_command(w, "keyunbind"@, a) == Some(keyunbind(w)),
        other_command(w, "mousebind"@, a) == Some(mousebind(w, a)),
        other_command(w, "mouseunbind"@, a) == Some(mouseunbind(w)),
        other_command(w, "gesturebind"@, a) == Some(gesturebind(w, a)),
        other_command(w, "gestureunbind"@, a) == Some(gestureunbind(w, a)),
{
    reveal(other_command);
    reveal_strlit("set");
    reveal_strlit("bar");
    reveal_strlit("rule");
    reveal_strlit("unrule");
    reveal_strlit("keyunbind");
    reveal_strlit("mousebind");
    reveal_strlit("mouseunbind");
    reveal_strlit("gesturebind");
    reveal_strlit("gestureunbind");
    reveal_strlit("emit_hook");
    reveal_strlit("setenv");
    reveal_strlit("reload");
    assert("set"@.len() == 3 && "bar"@.len() == 3 && "rule"@.len() == 4 && "unrule"@.len() == 6 && "keyunbind"@.len() == 9 && "mousebind"@.len() == 9 && "mouseunbind"@.len() == 11 && "gesturebind"@.len() == 11 && "gestureunbind"@.len() == 13 && "emit_hook"@.len() == 9 && "setenv"@.len() == 6 && "reload"@.len() == 6);
    assert("set"@[0] != "bar"@[0]);
    assert("unrule"@[0] != "setenv"@[0]);
    assert("unrule"@[0] != "reload"@[0]);
    assert("keyunbind"@[0] != "mousebind"@[0]);
    assert("keyunbind"@[0] != "emit_hook"@[0]);
    assert("mousebind"@[0] != "emit_hook"@[0]);
    assert("mouseunbind"@[0] != "gesturebind"@[0]);
    assert("setenv"@[0] != "reload"@[0]);
}


// --- comparing --------------------------------------------------------------------------

/// Texts that are numbers are compared as numbers, however many digits they have.
pub proof fn law_numbers_compared(a: i64, b: i64)
    ensures
        ({
            let x = show_int(a as int);
            let y = show_int(b as int);
            &&& holds("="@, x, y) == Some(a == b)
            &&& holds("!="@, x, y) == Some(a != b)
            &&& holds("lt"@, x, y) == Some(a < b)
            &&& holds("le"@, x, y) == Some(a <= b)
            &&& holds("gt"@, x, y) == Some(a > b)
            &&& holds("ge"@, x, y) == Some(a >= b)
        }),
{
    lemma_operators();
    law_signed_round_trip(a as int, i64::MIN as int, i64::MAX as int);
    law_signed_round_trip(b as int, i64::MIN as int, i64::MAX as int);
}

proof fn lemma_operators()
    ensures
        "="@.len() == 1 && "=="@.len() == 2 && "!="@.len() == 2 && "lt"@.len() == 2 && "le"@.len() == 2,
        "gt"@.len() == 2 && "ge"@.len() == 2,
        "=="@[0] == '=' && "!="@[0] == '!' && "lt"@ == seq!['l', 't'] && "le"@ == seq!['l', 'e'],
        "gt"@ == seq!['g', 't'] && "ge"@ == seq!['g', 'e'],
{
    reveal_strlit("=");
    reveal_strlit("==");
    reveal_strlit("!=");
    reveal_strlit("lt");
    reveal_strlit("le");
    reveal_strlit("gt");
    reveal_strlit("ge");
    assert("lt"@ =~= seq!['l', 't'] && "le"@ =~= seq!['l', 'e']);
    assert("gt"@ =~= seq!['g', 't'] && "ge"@ =~= seq!['g', 'e']);
}

proof fn lemma_codes(c: char, d: char)
    ensures
        c != d ==> (c as u32) != (d as u32),
{
    assert(c as u32 == c as int && d as u32 == d as int);
}

proof fn lemma_before_order(a: Text, b: Text)
    ensures
        !(text_before(a, b) && text_before(b, a)),
        a == b ==> !text_before(a, b),
        text_before(a, b) || text_before(b, a) || a == b,
    decreases a.len(),
{
    if a.len() == 0 || b.len() == 0 {
        if a.len() == 0 && b.len() == 0 {
            assert(a =~= b);
        }
    } else if a[0] == b[0] {
        lemma_before_order(a.drop_first(), b.drop_first());
        if a.drop_first() == b.drop_first() {
            assert(a =~= seq![a[0]] + a.drop_first());
            assert(b =~= seq![b[0]] + b.drop_first());
        }
    } else {
        lemma_codes(a[0], b[0]);
    }
}

/// Of two values one comes before the other, or they are equal, and never two of these; the
/// operators agree with that, and turned round say the opposite.
pub proof fn law_compared_one_way(a: Text, b: Text)
    ensures
        ({
            let lt = holds("lt"@, a, b) == Some(true);
            let gt = holds("gt"@, a, b) == Some(true);
            let eq = holds("="@, a, b) == Some(true);
            &&& lt || gt || eq
            &&& !(lt && gt) && !(lt && eq) && !(gt && eq)
            &&& holds("gt"@, b, a) == holds("lt"@, a, b)
            &&& holds("le"@, a, b) == Some(lt || eq)
            &&& holds("ge"@, a, b) == Some(gt || eq)
            &&& holds("!="@, a, b) == Some(!eq)
            &&& holds("=="@, a, b) == holds("="@, a, b)
            &&& holds("="@, a, a) == Some(true)
        }),
{
    lemma_operators();
    lemma_before_order(a, b);
}

/// A text that starts as another goes on comes behind it, and of two that differ first in
/// one character the one with the lower comes first, where neither pair are numbers.
pub proof fn law_texts_compared(head: Text, c: char, d: char, rest: Text, more: Text)
    requires
        (c as u32) < (d as u32),
    ensures
        text_before(head + seq![c] + rest, head + seq![d] + more),
        text_before(head, head + seq![c] + rest),
    decreases head.len(),
{
    let x = head + seq![c] + rest;
    let y = head + seq![d] + more;
    if head.len() > 0 {
        law_texts_compared(head.drop_first(), c, d, rest, more);
        assert(x.drop_first() =~= head.drop_first() + seq![c] + rest);
        assert(y.drop_first() =~= head.drop_first() + seq![d] + more);
    }
}

// --- filling in -------------------------------------------------------------------------

/// Every word that is the one to be replaced is the value, and every other stays.
pub proof fn law_filled_in(words: Seq<Text>, ident: Text, v: Text, i: int)
    requires
        0 <= i < words.len(),
    ensures
        filled_in(words, ident, v).len() == words.len(),
        words[i] == ident ==> filled_in(words, ident, v)[i] == v,
        words[i] != ident ==> filled_in(words, ident, v)[i] == words[i],
{
}

/// Whether there is no mark in a text.
pub open spec fn unmarked(s: Text) -> bool {
    forall|i: int| 0 <= i < s.len() - 1 ==> !((#[trigger] s[i]) == '%' && s[i + 1] == 's')
}

proof fn lemma_mark_after(head: Text, rest: Text)
    requires
        unmarked(head),
        head.len() == 0 || head.last() != '%',
    ensures
        mark_place(head + seq!['%', 's'] + rest) == head.len(),
    decreases head.len(),
{
    let s = head + seq!['%', 's'] + rest;
    if head.len() > 0 {
        assert(s[0] == head[0] && !(s[0] == '%' && s[1] == 's')) by {
            if head.len() > 1 {
                assert(s[1] == head[1]);
            }
        }
        assert(s.drop_first() =~= head.drop_first() + seq!['%', 's'] + rest);
        assert(unmarked(head.drop_first())) by {
            assert forall|i: int| 0 <= i < head.drop_first().len() - 1 implies !((#[trigger] head.drop_first()[i])
                == '%' && head.drop_first()[i + 1] == 's') by {
                assert(head[i + 1] == head.drop_first()[i]);
            }
        }
        lemma_mark_after(head.drop_first(), rest);
    }
}

/// The first mark of a format is replaced by the first value, what stands before it stays,
/// and what stands behind it is filled in with the other values.
pub proof fn law_format(w: World, head: Text, rest: Text, paths: Seq<Text>)
    requires
        unmarked(head),
        head.len() == 0 || head.last() != '%',
        paths.len() > 0,
    ensures
        formatted(w, head + seq!['%', 's'] + rest, paths) == head + value_or_path(w, paths[0]) + formatted(
            w,
            rest,
            paths.drop_first(),
        ),
        mark_count(head + seq!['%', 's'] + rest) == 1 + mark_count(rest),
{
    let s = head + seq!['%', 's'] + rest;
    lemma_mark_after(head, rest);
    assert(s.take(head.len() as int) =~= head);
    assert(s.skip(head.len() as int + 2) =~= rest);
}

/// A format without a mark is what it is.
pub proof fn law_format_plain(w: World, s: Text, paths: Seq<Text>)
    requires
        unmarked(s),
    ensures
        formatted(w, s, paths) == s,
        mark_count(s) == 0,
{
    lemma_unmarked(s);
}

proof fn lemma_unmarked(s: Text)
    requires
        unmarked(s),
    ensures
        mark_place(s) == s.len(),
    decreases s.len(),
{
    if s.len() >= 2 {
        assert(!(s[0] == '%' && s[1] == 's'));
        assert(unmarked(s.drop_first())) by {
            assert forall|i: int| 0 <= i < s.drop_first().len() - 1 implies !((#[trigger] s.drop_first()[i]) == '%'
                && s.drop_first()[i + 1] == 's') by {
                assert(s[i + 1] == s.drop_first()[i]);
            }
        }
        lemma_unmarked(s.drop_first());
    }
}

// --- settings and attributes ------------------------------------------------------------

/// A setting that was set reads back, and no other changes: what is no less than it may be
/// is kept as it was written, and a switch is on exactly where that was said.
#[verifier::rlimit(60)]
pub proof fn law_settings_read_back(s: Settings, n: i32, on: bool, c: Color)
    requires
        n >= 0,
    ensures
        ({
            let word = if on {
                "on"@
            } else {
                "off"@
            };
            let number = show_int(n as int);
            &&& with_setting(s, setting_named("window_gap"@), number) == Ok::<Settings, Text>(
                Settings { window_gap: n, ..s },
            )
            &&& with_setting(s, setting_named("border_width"@), number) == Ok::<Settings, Text>(
                Settings { border_width: n, ..s },
            )
            &&& with_setting(s, setting_named("border_color_active"@), show_color(c)) == Ok::<Settings, Text>(
                Settings { border_active: c, ..s },
            )
            &&& with_setting(s, setting_named("border_color_normal"@), show_color(c)) == Ok::<Settings, Text>(
                Settings { border_normal: c, ..s },
            )
            &&& with_setting(s, setting_named("border_color_urgent"@), show_color(c)) == Ok::<Settings, Text>(
                Settings { border_urgent: c, ..s },
            )
            &&& with_setting(s, setting_named("focus_follows_mouse"@), word) == Ok::<Settings, Text>(
                Settings { focus_follows_mouse: on, ..s },
            )
            &&& with_setting(s, setting_named("raise_on_focus"@), word) == Ok::<Settings, Text>(
                Settings { raise_on_focus: on, ..s },
            )
            &&& with_setting(s, setting_named("smart_frame_surroundings"@), word) == Ok::<Settings, Text>(
                Settings { smart_frame_surroundings: on, ..s },
            )
            &&& with_setting(s, setting_named("smart_window_surroundings"@), word) == Ok::<Settings, Text>(
                Settings { smart_window_surroundings: on, ..s },
            )
        }),
{
    lemma_setting_names();
    law_signed_round_trip(n as int, i32::MIN as int, i32::MAX as int);
    law_color_round_trip(c);
    reveal_strlit("on");
    reveal_strlit("off");
    reveal_strlit("true");
    reveal_strlit("1");
    assert("on"@.len() == 2 && "off"@.len() == 3 && "true"@.len() == 4 && "1"@.len() == 1);
}

proof fn lemma_setting_names()
    ensures
        "window_gap"@.len() == 10,
        "frame_gap"@.len() == 9,
        "border_width"@.len() == 12,
        "border_color_active"@.len() == 19,
        "frame_border_active_color"@.len() == 25,
        "border_color_normal"@.len() == 19,
        "frame_border_normal_color"@.len() == 25,
        "border_color_urgent"@.len() == 19,
        "focus_follows_mouse"@.len() == 19,
        "inactive_dim"@.len() == 12,
        "notify_bg"@.len() == 9,
        "notify_fg"@.len() == 9,
        "notify_body_fg"@.len() == 14,
        "notify_accent"@.len() == 13,
        "notify_accent_critical"@.len() == 22,
        "notify_width"@.len() == 12,
        "notify_timeout"@.len() == 14,
        "launcher_dim"@.len() == 12,
        "launcher_bg"@.len() == 11,
        "launcher_fg"@.len() == 11,
        "launcher_sel_bg"@.len() == 15,
        "launcher_sel_fg"@.len() == 15,
        "launcher_width"@.len() == 14,
        "raise_on_focus"@.len() == 14,
        "smart_frame_surroundings"@.len() == 24,
        "smart_window_surroundings"@.len() == 25,
        "default_frame_layout"@.len() == 20,
        "border_color_active"@[0] == 'b',
        "border_color_active"@[13] == 'a',
        "border_color_normal"@[0] == 'b',
        "border_color_normal"@[13] == 'n',
        "border_color_urgent"@[0] == 'b',
        "border_color_urgent"@[13] == 'u',
        "border_width"@[0] == 'b',
        "focus_follows_mouse"@[0] == 'f',
        "frame_border_active_color"@[0] == 'f',
        "frame_border_active_color"@[13] == 'a',
        "frame_border_normal_color"@[0] == 'f',
        "frame_border_normal_color"@[13] == 'n',
        "frame_gap"@[0] == 'f',
        "inactive_dim"@[0] == 'i',
        "launcher_bg"@[9] == 'b',
        "launcher_dim"@[0] == 'l',
        "launcher_fg"@[9] == 'f',
        "launcher_sel_bg"@[13] == 'b',
        "launcher_sel_fg"@[13] == 'f',
        "launcher_width"@[0] == 'l',
        "notify_bg"@[0] == 'n',
        "notify_bg"@[7] == 'b',
        "notify_body_fg"@[0] == 'n',
        "notify_body_fg"@[7] == 'b',
        "notify_fg"@[0] == 'n',
        "notify_fg"@[7] == 'f',
        "notify_timeout"@[0] == 'n',
        "notify_timeout"@[7] == 't',
        "notify_width"@[0] == 'n',
        "raise_on_focus"@[0] == 'r',
        "smart_window_surroundings"@[0] == 's',
{
    reveal_strlit("window_gap");
    reveal_strlit("frame_gap");
    reveal_strlit("border_width");
    reveal_strlit("border_color_active");
    reveal_strlit("frame_border_active_color");
    reveal_strlit("border_color_normal");
    reveal_strlit("frame_border_normal_color");
    reveal_strlit("border_color_urgent");
    reveal_strlit("focus_follows_mouse");
    reveal_strlit("inactive_dim");
    reveal_strlit("notify_bg");
    reveal_strlit("notify_fg");
    reveal_strlit("notify_body_fg");
    reveal_strlit("notify_accent");
    reveal_strlit("notify_accent_critical");
    reveal_strlit("notify_width");
    reveal_strlit("notify_timeout");
    reveal_strlit("launcher_dim");
    reveal_strlit("launcher_bg");
    reveal_strlit("launcher_fg");
    reveal_strlit("launcher_sel_bg");
    reveal_strlit("launcher_sel_fg");
    reveal_strlit("launcher_width");
    reveal_strlit("raise_on_focus");
    reveal_strlit("smart_frame_surroundings");
    reveal_strlit("smart_window_surroundings");
    reveal_strlit("default_frame_layout");
}

proof fn lemma_client_names()
    ensures
        "winid"@.len() == 5,
        "app_id"@.len() == 6,
        "class"@.len() == 5,
        "instance"@.len() == 8,
        "title"@.len() == 5,
        "tag"@.len() == 3,
        "floating"@.len() == 8,
        "fullscreen"@.len() == 10,
        "pseudotile"@.len() == 10,
        "urgent"@.len() == 6,
        "focused"@.len() == 7,
        "floating_geometry"@.len() == 17,
        "app_id"@[0] == 'a',
        "class"@[0] == 'c',
        "floating"@[0] == 'f',
        "fullscreen"@[0] == 'f',
        "instance"@[0] == 'i',
        "pseudotile"@[0] == 'p',
        "title"@[0] == 't',
        "urgent"@[0] == 'u',
        "winid"@[0] == 'w',
{
    reveal_strlit("winid");
    reveal_strlit("app_id");
    reveal_strlit("class");
    reveal_strlit("instance");
    reveal_strlit("title");
    reveal_strlit("tag");
    reveal_strlit("floating");
    reveal_strlit("fullscreen");
    reveal_strlit("pseudotile");
    reveal_strlit("urgent");
    reveal_strlit("focused");
    reveal_strlit("floating_geometry");
}

proof fn lemma_monitor_names()
    ensures
        "name"@.len() == 4,
        "index"@.len() == 5,
        "tag"@.len() == 3,
        "lock_tag"@.len() == 8,
        "x"@.len() == 1,
        "y"@.len() == 1,
        "width"@.len() == 5,
        "height"@.len() == 6,
        "focused"@.len() == 7,
        "index"@[0] == 'i',
        "width"@[0] == 'w',
        "x"@[0] == 'x',
        "y"@[0] == 'y',
{
    reveal_strlit("name");
    reveal_strlit("index");
    reveal_strlit("tag");
    reveal_strlit("lock_tag");
    reveal_strlit("x");
    reveal_strlit("y");
    reveal_strlit("width");
    reveal_strlit("height");
    reveal_strlit("focused");
}

/// What is shown of a setting is what it is: read as a setting again, it changes nothing.
#[verifier::rlimit(60)]
pub proof fn law_settings_shown(s: Settings)
    requires
        s.window_gap >= 0,
        s.border_width >= 0,
    ensures
        ({
            let shown = |name: Text| setting_value(s, name)->Ok_0;
            &&& with_setting(s, Name::WindowGap, shown("window_gap"@)) == Ok::<Settings, Text>(s)
            &&& with_setting(s, Name::BorderWidth, shown("border_width"@)) == Ok::<Settings, Text>(s)
            &&& with_setting(s, Name::BorderActive, shown("border_color_active"@)) == Ok::<Settings, Text>(s)
            &&& with_setting(s, Name::BorderNormal, shown("border_color_normal"@)) == Ok::<Settings, Text>(s)
            &&& with_setting(s, Name::BorderUrgent, shown("border_color_urgent"@)) == Ok::<Settings, Text>(s)
            &&& with_setting(s, Name::FocusFollowsMouse, shown("focus_follows_mouse"@)) == Ok::<Settings, Text>(s)
            &&& with_setting(s, Name::RaiseOnFocus, shown("raise_on_focus"@)) == Ok::<Settings, Text>(s)
            &&& with_setting(s, Name::SmartFrame, shown("smart_frame_surroundings"@)) == Ok::<Settings, Text>(s)
            &&& with_setting(s, Name::SmartWindow, shown("smart_window_surroundings"@)) == Ok::<Settings, Text>(s)
        }),
{
    lemma_setting_names();
    law_signed_round_trip(s.window_gap as int, i32::MIN as int, i32::MAX as int);
    law_signed_round_trip(s.border_width as int, i32::MIN as int, i32::MAX as int);
    law_color_round_trip(s.border_active);
    law_color_round_trip(s.border_normal);
    law_color_round_trip(s.border_urgent);
    reveal_strlit("on");
    reveal_strlit("true");
    reveal_strlit("false");
    reveal_strlit("1");
    assert("on"@.len() == 2 && "false"@.len() == 5 && "true"@.len() == 4 && "1"@.len() == 1);
}

/// Dimming is held between none and all, and what is no number, or is below zero, is none.
pub proof fn law_dimming_held(d: Double)
    ensures
        is_dimming(dimming(d)),
        is_dimming(d) ==> dimming(d) == d,
        d is Nan ==> !dims(dimming(d)),
        d matches Double::Mag { neg, units } && neg ==> !dims(dimming(d)),
        d matches Double::Mag { neg, units } && !neg && units > 0 ==> dims(dimming(d)),
        d matches Double::Mag { neg, units } && !neg && units >= WHOLE ==> dimming(d) == (Double::Mag {
            neg: false,
            units: WHOLE,
        }),
{
}

/// What is read of a window is how it is: each of its marks under its own name, its tag and
/// number as numbers, its place as a geometry.
pub proof fn law_window_read(w: World, id: WinId)
    requires
        w.has_win(id),
        w.win(id).float_geo.h >= 0,
    ensures
        ({
            let x = w.win(id);
            let read = |name: Text| client_value(w, id, name)->Ok_0;
            &&& unsigned(read("winid"@), u64::MAX as int) == Some(id as int)
            &&& unsigned(read("tag"@), u32::MAX as int) == Some(x.tag as int)
            &&& is_yes(read("floating"@)) == x.floating
            &&& is_yes(read("fullscreen"@)) == x.fullscreen
            &&& is_yes(read("pseudotile"@)) == x.pseudotile
            &&& is_yes(read("urgent"@)) == x.urgent
            &&& is_yes(read("focused"@)) == (w.focused_window() == Some(id))
            &&& rect_text(read("floating_geometry"@)) == Some(x.float_geo)
            &&& x.title.deep_view() matches Some(t) ==> read("title"@) == t
            &&& x.app_id.deep_view() matches Some(t) ==> read("app_id"@) == t
        }),
{
    lemma_client_names();
    law_unsigned_round_trip(id as nat, u64::MAX as int);
    law_unsigned_round_trip(w.win(id).tag as nat, u32::MAX as int);
    law_rect_round_trip(w.win(id).float_geo);
    reveal_strlit("on");
    reveal_strlit("true");
    reveal_strlit("false");
    reveal_strlit("1");
    assert("on"@.len() == 2 && "false"@.len() == 5 && "true"@.len() == 4 && "1"@.len() == 1);
}

/// What is set of a window is read of it afterwards, and nothing else of it changes.
pub proof fn law_window_set(w: World, id: WinId, on: bool)
    requires
        w.wf(),
        w.has_win(id),
    ensures
        ({
            let word = if on {
                "on"@
            } else {
                "off"@
            };
            let x = w.win(id);
            let made = |name: Text| set_client(w, id, name, word)->Ok_0.win(id);
            &&& made("fullscreen"@) == (Window { fullscreen: on, ..x })
            &&& made("pseudotile"@) == (Window { pseudotile: on, ..x })
            &&& made("urgent"@) == (Window { urgent: on, ..x })
            &&& made("floating"@).floating == on
            &&& made("floating"@).tag == x.tag
        }),
{
    lemma_client_names();
    lemma_win_place(w.windows, id);
    let x = w.win(id);
    lemma_found(w, id, Window { fullscreen: on, ..x });
    lemma_found(w, id, Window { pseudotile: on, ..x });
    lemma_found(w, id, Window { urgent: on, ..x });
    lemma_found(w, id, Window { floating: false, ..x });
    lemma_float_keeps(w, id, w.last_or_default(id));
    reveal_strlit("on");
    reveal_strlit("off");
    reveal_strlit("true");
    reveal_strlit("1");
    assert("on"@.len() == 2 && "off"@.len() == 3 && "true"@.len() == 4 && "1"@.len() == 1);
}

/// What is read of a monitor is how it is.
pub proof fn law_monitor_read(w: World, i: int)
    requires
        0 <= i < w.desk.list.len(),
    ensures
        ({
            let m = w.desk.list[i];
            let read = |name: Text| monitor_value(w, i, name)->Ok_0;
            &&& signed32(read("x"@)) == Some(m.rect.x as int)
            &&& signed32(read("y"@)) == Some(m.rect.y as int)
            &&& signed32(read("width"@)) == Some(m.rect.w as int)
            &&& signed32(read("height"@)) == Some(m.rect.h as int)
            &&& unsigned(read("tag"@), u32::MAX as int) == Some(m.tag as int)
            &&& m.locked_tag matches Some(t) ==> unsigned(read("lock_tag"@), u32::MAX as int) == Some(t as int)
            &&& m.locked_tag is None ==> read("lock_tag"@).len() == 0
            &&& is_yes(read("focused"@)) == (i == w.desk.focus)
            &&& m.name matches Some(n) ==> read("name"@) == n
        }),
{
    lemma_monitor_names();
    let m = w.desk.list[i];
    law_signed_round_trip(m.rect.x as int, i32::MIN as int, i32::MAX as int);
    law_signed_round_trip(m.rect.y as int, i32::MIN as int, i32::MAX as int);
    law_signed_round_trip(m.rect.w as int, i32::MIN as int, i32::MAX as int);
    law_signed_round_trip(m.rect.h as int, i32::MIN as int, i32::MAX as int);
    law_unsigned_round_trip(m.tag as nat, u32::MAX as int);
    if m.locked_tag is Some {
        law_unsigned_round_trip(m.locked_tag->0 as nat, u32::MAX as int);
    }
    reveal_strlit("on");
    reveal_strlit("true");
    reveal_strlit("false");
    reveal_strlit("1");
    assert("on"@.len() == 2 && "false"@.len() == 5 && "true"@.len() == 4 && "1"@.len() == 1);
}

/// The look of notifications and of the launcher is set part by part, each under its own
/// name; what is too narrow is held at the least width.
#[verifier::rlimit(60)]
pub proof fn law_looks_set(s: Settings, c: Color, n: i32)
    ensures
        ({
            let v = show_color(c);
            let number = show_int(n as int);
            let t = s.notif_theme;
            let l = s.launcher_theme;
            let set = |name: Text, value: Text| with_setting(s, setting_named(name), value);
            &&& set("notify_bg"@, v) == Ok::<Settings, Text>(Settings { notif_theme: NotifTheme { bg: c, ..t }, ..s })
            &&& set("notify_fg"@, v) == Ok::<Settings, Text>(Settings { notif_theme: NotifTheme { fg: c, ..t }, ..s })
            &&& set("notify_body_fg"@, v) == Ok::<Settings, Text>(
                Settings { notif_theme: NotifTheme { body_fg: c, ..t }, ..s },
            )
            &&& set("notify_accent"@, v) == Ok::<Settings, Text>(
                Settings { notif_theme: NotifTheme { accent: c, ..t }, ..s },
            )
            &&& set("notify_accent_critical"@, v) == Ok::<Settings, Text>(
                Settings { notif_theme: NotifTheme { accent_critical: c, ..t }, ..s },
            )
            &&& n >= 120 ==> set("notify_width"@, number) == Ok::<Settings, Text>(
                Settings { notif_theme: NotifTheme { width: n, ..t }, ..s },
            )
            &&& n < 120 ==> set("notify_width"@, number) == Ok::<Settings, Text>(
                Settings { notif_theme: NotifTheme { width: 120, ..t }, ..s },
            )
            &&& n >= 0 ==> set("notify_timeout"@, number) == Ok::<Settings, Text>(
                Settings { notif_theme: NotifTheme { timeout_ms: n, ..t }, ..s },
            )
            &&& set("launcher_dim"@, v) == Ok::<Settings, Text>(
                Settings { launcher_theme: LauncherTheme { dim: c, ..l }, ..s },
            )
            &&& set("launcher_bg"@, v) == Ok::<Settings, Text>(
                Settings { launcher_theme: LauncherTheme { bg: c, ..l }, ..s },
            )
            &&& set("launcher_fg"@, v) == Ok::<Settings, Text>(
                Settings { launcher_theme: LauncherTheme { fg: c, ..l }, ..s },
            )
            &&& set("launcher_sel_bg"@, v) == Ok::<Settings, Text>(
                Settings { launcher_theme: LauncherTheme { sel_bg: c, ..l }, ..s },
            )
            &&& set("launcher_sel_fg"@, v) == Ok::<Settings, Text>(
                Settings { launcher_theme: LauncherTheme { sel_fg: c, ..l }, ..s },
            )
            &&& n >= 240 ==> set("launcher_width"@, number) == Ok::<Settings, Text>(
                Settings { launcher_theme: LauncherTheme { width: n, ..l }, ..s },
            )
            &&& n < 240 ==> set("launcher_width"@, number) == Ok::<Settings, Text>(
                Settings { launcher_theme: LauncherTheme { width: 240, ..l }, ..s },
            )
        }),
{
    lemma_setting_names();
    law_signed_round_trip(n as int, i32::MIN as int, i32::MAX as int);
    law_color_round_trip(c);
}

/// The arrangement of new frames is set by its name.
pub proof fn law_usual_layout_set(s: Settings, l: LayoutMode)
    ensures
        with_setting(s, setting_named("default_frame_layout"@), crate::sexpr::layout_name(l)) == Ok::<Settings, Text>(
            Settings { default_frame_layout: l, ..s },
        ),
{
    lemma_setting_names();
    reveal_strlit("max");
    reveal_strlit("vertical");
    reveal_strlit("horizontal");
    reveal_strlit("grid");
    assert("max"@.len() == 3 && "vertical"@.len() == 8 && "horizontal"@.len() == 10 && "grid"@.len() == 4);
}

} // verus!
