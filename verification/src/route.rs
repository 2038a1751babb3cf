//! The commands that are carried out at once, by their names.

use vstd::prelude::*;
use crate::attr::{
    attr_listing, attr_value, drop_attr, get, list, make_attr, new_attr, remove_attr, set_attr,
};
use crate::cmd_bar::{bar, cmd_bar};
use crate::cmd_frame::{
    cmd_cycle, cmd_cycle_all, cmd_cycle_frame, cmd_cycle_layout, cmd_focus, cmd_focus_frame, cmd_remove,
    cmd_resize, cmd_set_layout, cmd_shift, cmd_split, cycle, cycle_all, cycle_frame, cycle_layout, focus,
    focus_frame, remove, resize, set_layout, shift, split_frame,
};
use crate::cmd_layout::{cmd_dump_layout, cmd_dump_tree, cmd_load, dump, dump_tree, load};
use crate::cmd_monitor::{
    add_monitor, cmd_add_monitor, cmd_cycle_monitor, cmd_focus_monitor, cmd_lock_tag, cmd_move_monitor,
    cmd_pad, cmd_raise_monitor, cmd_remove_monitor, cmd_rename_monitor, cmd_set_monitors, cmd_unlock_tag,
    cycle_monitor, focus_monitor, lock_tag, move_monitor, pad, raise_monitor, remove_monitor,
    rename_monitor, set_monitors, unlock_tag,
};
use crate::cmd_set::cmd_set;
use crate::cmd_window::{
    bring, close, cmd_bring, cmd_close, cmd_dock, cmd_floating, cmd_floating_geometry, cmd_jumpto,
    cmd_merge_tag, cmd_move, cmd_shift_to_monitor, cmd_use, cmd_use_index, cmd_use_previous,
    cmd_window_mode, dock, floating, floating_geometry, jumpto, merge_tag, move_window, restack,
    restack_focused, shift_to_monitor, use_index, use_previous, use_tag, window_mode,
};
use crate::combine::{cmd_compare, compare};
use crate::gestures::{cmd_gesturebind, cmd_gestureunbind, gesturebind, gestureunbind};
use crate::keys::{cmd_keyunbind, cmd_mousebind, cmd_mouseunbind, keyunbind, mousebind, mouseunbind};
use crate::listing::{
    list_clients, list_gesturebinds, list_keybinds, list_monitors, list_of_clients, list_of_gesturebinds,
    list_of_keybinds, list_of_monitors, list_of_outputs, list_of_rules, list_outputs, list_rules, tag_status,
    tags_status,
};
use crate::monitor::{selector_text, MonitorSel};
use crate::outputs::{cmd_detect_monitors, detect_monitors};
use crate::reply::{err, err3, err_about, err_text, ok, ok_text, parse_tag, tag_text, two};
use crate::rules::{cmd_rule, cmd_unrule, rule, unrule};
use crate::state::{Deed, Effect, State, World};
use crate::table::{put, put_key};
use crate::text::{join, join_from, same, Text};

verus! {

/// What a command did and said; none where it is none of those that are asked for.
pub type Deal = Option<(World, Text)>;

/// What a function that carries out one of a set of commands promises.
pub open spec fn dealt(w: World, v: World, r: Option<String>, d: Deal) -> bool {
    match d {
        Some((u, t)) => r is Some && r->0@ == t && v == u,
        None => r is None && v == w,
    }
}

/// Commands on monitors.
#[verifier::opaque]
pub open spec fn desk_command(w: World, name: Text, a: Seq<Text>) -> Deal {
    if name == "set_monitors"@ {
        Some(set_monitors(w, a))
    } else if name == "add_monitor"@ {
        Some(add_monitor(w, a))
    } else if name == "raise_monitor"@ {
        Some(raise_monitor(w, a))
    } else if name == "lock_tag"@ {
        Some(lock_tag(w, a))
    } else if name == "pad"@ {
        Some(pad(w, a))
    } else if name == "focus_monitor"@ {
        Some(focus_monitor(w, a))
    } else if name == "cycle_monitor"@ {
        Some(cycle_monitor(w, a))
    } else if name == "detect_monitors"@ {
        Some(detect_monitors(w))
    } else if name == "remove_monitor"@ {
        Some(remove_monitor(w, a))
    } else if name == "unlock_tag"@ {
        Some(unlock_tag(w, a))
    } else if name == "move_monitor"@ {
        Some(move_monitor(w, a))
    } else if name == "rename_monitor"@ {
        Some(rename_monitor(w, a))
    } else if name == "shift_to_monitor"@ {
        Some(shift_to_monitor(w, a))
    } else if name == "set_tag_monitor"@ {
        Some(set_tag_monitor(w, a))
    } else {
        None
    }
}

/// `set_tag_monitor <tag> <monitor>`: the monitor that a tag is at home on.
pub open spec fn set_tag_monitor(w: World, a: Seq<Text>) -> (World, Text) {
    if a.len() < 2 {
        (w, err_text("set_tag_monitor: expected <tag> <monitor>"@))
    } else {
        match tag_text(a[0]) {
            None => (w, err_about("set_tag_monitor: bad tag '"@, a[0], "'"@)),
            Some(t) => (
                World { tag_monitor: put(w.tag_monitor, t as u64, selector_text(a[1])), ..w },
                ok_text(),
            ),
        }
    }
}

fn cmd_set_tag_monitor(state: &mut State, a: &[String]) -> (r: String)
    requires
        old(state)@.wf(),
    ensures
        (final(state)@, r@) == set_tag_monitor(old(state)@, a.deep_view()),
        final(state)@.wf(),
{
    if a.len() < 2 {
        return err("set_tag_monitor: expected <tag> <monitor>");
    }
    assert(a.deep_view()[0] == a@[0]@ && a.deep_view()[1] == a@[1]@);
    match parse_tag(a[0].as_str()) {
        None => err3("set_tag_monitor: bad tag '", a[0].as_str(), "'"),
        Some(t) => {
            put_key(&mut state.tag_monitor, t as u64, MonitorSel::parse(a[1].as_str()));
            ok()
        },
    }
}

fn run_desk(state: &mut State, name: &str, a: &[String]) -> (r: Option<String>)
    requires
        old(state)@.wf(),
    ensures
        dealt(old(state)@, final(state)@, r, desk_command(old(state)@, name@, a.deep_view())),
        final(state)@.wf(),
{
    reveal(desk_command);
    if same(name, "set_monitors") {
        Some(cmd_set_monitors(state, a))
    } else if same(name, "add_monitor") {
        Some(cmd_add_monitor(state, a))
    } else if same(name, "raise_monitor") {
        Some(cmd_raise_monitor(state, a))
    } else if same(name, "lock_tag") {
        Some(cmd_lock_tag(state, a))
    } else if same(name, "pad") {
        Some(cmd_pad(state, a))
    } else if same(name, "focus_monitor") {
        Some(cmd_focus_monitor(state, a))
    } else if same(name, "cycle_monitor") {
        Some(cmd_cycle_monitor(state, a))
    } else if same(name, "detect_monitors") {
        Some(cmd_detect_monitors(state))
    } else if same(name, "remove_monitor") {
        Some(cmd_remove_monitor(state, a))
    } else if same(name, "unlock_tag") {
        Some(cmd_unlock_tag(state, a))
    } else if same(name, "move_monitor") {
        Some(cmd_move_monitor(state, a))
    } else if same(name, "rename_monitor") {
        Some(cmd_rename_monitor(state, a))
    } else if same(name, "shift_to_monitor") {
        Some(cmd_shift_to_monitor(state, a))
    } else if same(name, "set_tag_monitor") {
        Some(cmd_set_tag_monitor(state, a))
    } else {
        None
    }
}

/// Commands on tags and windows.
#[verifier::opaque]
pub open spec fn window_command(w: World, name: Text, a: Seq<Text>) -> Deal {
    if name == "use"@ {
        Some(use_tag(w, a))
    } else if name == "use_index"@ {
        Some(use_index(w, a))
    } else if name == "use_previous"@ {
        Some(use_previous(w))
    } else if name == "merge_tag"@ {
        Some(merge_tag(w, a))
    } else if name == "move"@ {
        Some(move_window(w, a))
    } else if name == "bring"@ {
        Some(bring(w, a))
    } else if name == "jumpto"@ {
        Some(jumpto(w, a))
    } else if name == "raise"@ {
        Some((restack(w, true), ok_text()))
    } else if name == "lower"@ {
        Some((restack(w, false), ok_text()))
    } else if name == "close"@ {
        Some(close(w))
    } else if name == "close_or_remove"@ {
        Some(
            if w.focused_window() is Some {
                close(w)
            } else {
                remove(w)
            },
        )
    } else if name == "fullscreen"@ {
        Some(window_mode(w, a, true))
    } else if name == "pseudotile"@ {
        Some(window_mode(w, a, false))
    } else if name == "floating"@ {
        Some(floating(w, a))
    } else if name == "floating_geometry"@ {
        Some(floating_geometry(w, a))
    } else if name == "dock"@ {
        Some(dock(w, a))
    } else {
        None
    }
}

fn run_window(state: &mut State, name: &str, a: &[String]) -> (r: Option<String>)
    requires
        old(state)@.wf(),
    ensures
        dealt(old(state)@, final(state)@, r, window_command(old(state)@, name@, a.deep_view())),
        final(state)@.wf(),
{
    reveal(window_command);
    if same(name, "use") {
        Some(cmd_use(state, a))
    } else if same(name, "use_index") {
        Some(cmd_use_index(state, a))
    } else if same(name, "use_previous") {
        Some(cmd_use_previous(state))
    } else if same(name, "merge_tag") {
        Some(cmd_merge_tag(state, a))
    } else if same(name, "move") {
        Some(cmd_move(state, a))
    } else if same(name, "bring") {
        Some(cmd_bring(state, a))
    } else if same(name, "jumpto") {
        Some(cmd_jumpto(state, a))
    } else if same(name, "raise") {
        restack_focused(state, true);
        Some(ok())
    } else if same(name, "lower") {
        restack_focused(state, false);
        Some(ok())
    } else if same(name, "close") {
        Some(cmd_close(state))
    } else if same(name, "close_or_remove") {
        if state.focused_window().is_some() {
            Some(cmd_close(state))
        } else {
            Some(cmd_remove(state))
        }
    } else if same(name, "fullscreen") {
        Some(cmd_window_mode(state, a, true))
    } else if same(name, "pseudotile") {
        Some(cmd_window_mode(state, a, false))
    } else if same(name, "floating") {
        Some(cmd_floating(state, a))
    } else if same(name, "floating_geometry") {
        Some(cmd_floating_geometry(state, a))
    } else if same(name, "dock") {
        Some(cmd_dock(state, a))
    } else {
        None
    }
}

/// Commands on frames.
#[verifier::opaque]
pub open spec fn frame_command(w: World, name: Text, a: Seq<Text>) -> Deal {
    if name == "split"@ {
        Some(split_frame(w, a))
    } else if name == "focus"@ {
        Some(focus(w, a))
    } else if name == "shift"@ {
        Some(shift(w, a))
    } else if name == "resize"@ {
        Some(resize(w, a))
    } else if name == "remove"@ {
        Some(remove(w))
    } else if name == "cycle"@ {
        Some(cycle(w, a))
    } else if name == "cycle_all"@ {
        Some(cycle_all(w, a))
    } else if name == "cycle_frame"@ {
        Some(cycle_frame(w, a))
    } else if name == "focus_frame"@ {
        Some(focus_frame(w, a))
    } else if name == "set_layout"@ {
        Some(set_layout(w, a))
    } else if name == "cycle_layout"@ {
        Some(cycle_layout(w))
    } else if name == "dump"@ {
        Some((w, dump(w, a)))
    } else if name == "load"@ {
        Some(load(w, a))
    } else if name == "dump_tree"@ {
        Some((w, dump_tree(w)))
    } else {
        None
    }
}

fn run_frame(state: &mut State, name: &str, a: &[String]) -> (r: Option<String>)
    requires
        old(state)@.wf(),
    ensures
        dealt(old(state)@, final(state)@, r, frame_command(old(state)@, name@, a.deep_view())),
        final(state)@.wf(),
{
    reveal(frame_command);
    if same(name, "split") {
        Some(cmd_split(state, a))
    } else if same(name, "focus") {
        Some(cmd_focus(state, a))
    } else if same(name, "shift") {
        Some(cmd_shift(state, a))
    } else if same(name, "resize") {
        Some(cmd_resize(state, a))
    } else if same(name, "remove") {
        Some(cmd_remove(state))
    } else if same(name, "cycle") {
        Some(cmd_cycle(state, a))
    } else if same(name, "cycle_all") {
        Some(cmd_cycle_all(state, a))
    } else if same(name, "cycle_frame") {
        Some(cmd_cycle_frame(state, a))
    } else if same(name, "focus_frame") {
        Some(cmd_focus_frame(state, a))
    } else if same(name, "set_layout") {
        Some(cmd_set_layout(state, a))
    } else if same(name, "cycle_layout") {
        Some(cmd_cycle_layout(state))
    } else if same(name, "dump") {
        Some(cmd_dump_layout(state, a))
    } else if same(name, "load") {
        Some(cmd_load(state, a))
    } else if same(name, "dump_tree") {
        Some(cmd_dump_tree(state))
    } else {
        None
    }
}

/// Commands that list what there is.
#[verifier::opaque]
pub open spec fn list_command(w: World, name: Text, a: Seq<Text>) -> Option<Text> {
    if name == "list_monitors"@ {
        Some(list_of_monitors(w))
    } else if name == "list_clients"@ {
        Some(list_of_clients(w))
    } else if name == "list_outputs"@ {
        Some(list_of_outputs(w))
    } else if name == "list_keybinds"@ {
        Some(list_of_keybinds(w))
    } else if name == "list_gesturebinds"@ {
        Some(list_of_gesturebinds(w))
    } else if name == "list_rules"@ {
        Some(list_of_rules(w))
    } else if name == "tag_status"@ {
        Some(tags_status(w, a))
    } else if name == "attr"@ {
        Some(attr_listing(w, a))
    } else if name == "compare"@ {
        Some(compare(w, a))
    } else if name == "version"@ {
        Some("sommerflusswm 0.1.0\n"@)
    } else if name == "echo"@ {
        Some(join(a, " "@) + "\n"@)
    } else if name == "true"@ {
        Some(ok_text())
    } else if name == "false"@ {
        Some(err_text("false"@))
    } else if name == "get_attr"@ {
        Some(
            if a.len() == 0 {
                err_text("get_attr: expected an attribute path"@)
            } else {
                match attr_value(w, a[0]) {
                    Ok(v) => v + "\n"@,
                    Err(e) => err_text(e),
                }
            },
        )
    } else {
        None
    }
}

fn run_list(state: &State, name: &str, a: &[String]) -> (r: Option<String>)
    requires
        state@.wf(),
    ensures
        match list_command(state@, name@, a.deep_view()) {
            Some(t) => r is Some && r->0@ == t,
            None => r is None,
        },
{
    reveal(list_command);
    if same(name, "list_monitors") {
        Some(list_monitors(state))
    } else if same(name, "list_clients") {
        Some(list_clients(state))
    } else if same(name, "list_outputs") {
        Some(list_outputs(state))
    } else if same(name, "list_keybinds") {
        Some(list_keybinds(state))
    } else if same(name, "list_gesturebinds") {
        Some(list_gesturebinds(state))
    } else if same(name, "list_rules") {
        Some(list_rules(state))
    } else if same(name, "tag_status") {
        Some(tag_status(state, a))
    } else if same(name, "attr") {
        Some(list(state, a))
    } else if same(name, "compare") {
        Some(cmd_compare(state, a))
    } else if same(name, "version") {
        Some("sommerflusswm 0.1.0\n".to_owned())
    } else if same(name, "echo") {
        assert(a.deep_view().skip(0) =~= a.deep_view());
        Some(two(join_from(a, 0, " ").as_str(), "\n"))
    } else if same(name, "true") {
        Some(ok())
    } else if same(name, "false") {
        Some(err("false"))
    } else if same(name, "get_attr") {
        if a.len() == 0 {
            return Some(err("get_attr: expected an attribute path"));
        }
        assert(a.deep_view()[0] == a@[0]@);
        Some(
            match get(state, a[0].as_str()) {
                Ok(v) => two(v.as_str(), "\n"),
                Err(e) => err(e.as_str()),
            },
        )
    } else {
        None
    }
}

/// The reply to an action that may fail.
pub open spec fn attempt(w: World, done: Result<World, Text>) -> (World, Text) {
    match done {
        Ok(v) => (v, ok_text()),
        Err(e) => (w, err_text(e)),
    }
}

/// The reply to an action that may fail.
fn answer(r: Result<(), String>) -> (s: String)
    ensures
        s@ == (match r {
            Ok(_) => ok_text(),
            Err(e) => err_text(e@),
        }),
{
    match r {
        Ok(()) => ok(),
        Err(e) => err(e.as_str()),
    }
}

/// Commands on attributes.
#[verifier::opaque]
pub open spec fn attr_command(w: World, name: Text, a: Seq<Text>) -> Deal {
    if name == "set_attr"@ {
        Some(
            if a.len() < 2 {
                (w, err_text("set_attr: expected <path> <value>"@))
            } else {
                let (v, r) = set_attr(w, a[0], a[1]);
                (
                    v,
                    match r {
                        Ok(_) => ok_text(),
                        Err(e) => err_text(e),
                    },
                )
            },
        )
    } else if name == "new_attr"@ {
        Some(
            if a.len() < 2 {
                (w, err_text("new_attr: expected <type> <my_name>"@))
            } else {
                attempt(w, make_attr(w, a[0], a[1]))
            },
        )
    } else if name == "remove_attr"@ {
        Some(
            if a.len() == 0 {
                (w, err_text("remove_attr: expected an attribute path"@))
            } else {
                attempt(w, drop_attr(w, a[0]))
            },
        )
    } else {
        None
    }
}

fn run_attr(state: &mut State, name: &str, a: &[String]) -> (r: Option<String>)
    requires
        old(state)@.wf(),
    ensures
        dealt(old(state)@, final(state)@, r, attr_command(old(state)@, name@, a.deep_view())),
        final(state)@.wf(),
{
    reveal(attr_command);
    assert(a@.len() > 0 ==> a.deep_view()[0] == a@[0]@);
    assert(a@.len() > 1 ==> a.deep_view()[1] == a@[1]@);
    if same(name, "set_attr") {
        if a.len() < 2 {
            return Some(err("set_attr: expected <path> <value>"));
        }
        let r = crate::attr::set(state, a[0].as_str(), a[1].as_str());
        Some(answer(r))
    } else if same(name, "new_attr") {
        if a.len() < 2 {
            return Some(err("new_attr: expected <type> <my_name>"));
        }
        let r = new_attr(state, a[0].as_str(), a[1].as_str());
        Some(answer(r))
    } else if same(name, "remove_attr") {
        if a.len() == 0 {
            return Some(err("remove_attr: expected an attribute path"));
        }
        let r = remove_attr(state, a[0].as_str());
        Some(answer(r))
    } else {
        None
    }
}

/// Commands on the rest.
#[verifier::opaque]
pub open spec fn other_command(w: World, name: Text, a: Seq<Text>) -> Deal {
    if name == "set"@ {
        Some(crate::cmd_set::set(w, a))
    } else if name == "bar"@ {
        Some(bar(w, a))
    } else if name == "rule"@ {
        Some(rule(w, a))
    } else if name == "unrule"@ {
        Some(unrule(w))
    } else if name == "keyunbind"@ {
        Some(keyunbind(w))
    } else if name == "mousebind"@ {
        Some(mousebind(w, a))
    } else if name == "mouseunbind"@ {
        Some(mouseunbind(w))
    } else if name == "gesturebind"@ {
        Some(gesturebind(w, a))
    } else if name == "gestureunbind"@ {
        Some(gestureunbind(w, a))
    } else if name == "emit_hook"@ {
        Some((w.then_do(Deed::Hook(join(a, "\t"@) + "\n"@)), ok_text()))
    } else if name == "setenv"@ {
        Some(
            if a.len() < 2 {
                (w, err_text("setenv: expected <name> <value>"@))
            } else {
                (w.then_do(Deed::Setenv(a[0], a[1])), ok_text())
            },
        )
    } else if name == "reload"@ {
        Some((w.then_do(Deed::Reload), ok_text()))
    } else {
        None
    }
}

fn run_other(state: &mut State, name: &str, a: &[String]) -> (r: Option<String>)
    requires
        old(state)@.wf(),
    ensures
        dealt(old(state)@, final(state)@, r, other_command(old(state)@, name@, a.deep_view())),
        final(state)@.wf(),
{
    reveal(other_command);
    if same(name, "set") {
        Some(cmd_set(state, a))
    } else if same(name, "bar") {
        Some(cmd_bar(state, a))
    } else if same(name, "rule") {
        Some(cmd_rule(state, a))
    } else if same(name, "unrule") {
        Some(cmd_unrule(state))
    } else if same(name, "keyunbind") {
        Some(cmd_keyunbind(state))
    } else if same(name, "mousebind") {
        Some(cmd_mousebind(state, a))
    } else if same(name, "mouseunbind") {
        Some(cmd_mouseunbind(state))
    } else if same(name, "gesturebind") {
        Some(cmd_gesturebind(state, a))
    } else if same(name, "gestureunbind") {
        Some(cmd_gestureunbind(state, a))
    } else if same(name, "emit_hook") {
        assert(a.deep_view().skip(0) =~= a.deep_view());
        let line = two(join_from(a, 0, "\t").as_str(), "\n");
        state.perform(Effect::Hook(line));
        Some(ok())
    } else if same(name, "setenv") {
        if a.len() < 2 {
            return Some(err("setenv: expected <name> <value>"));
        }
        assert(a.deep_view()[0] == a@[0]@ && a.deep_view()[1] == a@[1]@);
        state.perform(Effect::Setenv(a[0].clone(), a[1].clone()));
        Some(ok())
    } else if same(name, "reload") {
        state.perform(Effect::Reload);
        Some(ok())
    } else {
        None
    }
}

/// What a command that is carried out at once did and said; none where the name is that
/// of no such command.
#[verifier::opaque]
pub open spec fn at_once(w: World, name: Text, a: Seq<Text>) -> Deal {
    match desk_command(w, name, a) {
        Some(d) => Some(d),
        None => match window_command(w, name, a) {
            Some(d) => Some(d),
            None => match frame_command(w, name, a) {
                Some(d) => Some(d),
                None => match list_command(w, name, a) {
                    Some(t) => Some((w, t)),
                    None => match attr_command(w, name, a) {
                        Some(d) => Some(d),
                        None => other_command(w, name, a),
                    },
                },
            },
        },
    }
}

/// Carries out a command that is carried out at once.
pub fn run_at_once(state: &mut State, name: &str, a: &[String]) -> (r: Option<String>)
    requires
        old(state)@.wf(),
    ensures
        dealt(old(state)@, final(state)@, r, at_once(old(state)@, name@, a.deep_view())),
        final(state)@.wf(),
{
    reveal(at_once);
    if let Some(s) = run_desk(state, name, a) {
        return Some(s);
    }
    if let Some(s) = run_window(state, name, a) {
        return Some(s);
    }
    if let Some(s) = run_frame(state, name, a) {
        return Some(s);
    }
    if let Some(s) = run_list(state, name, a) {
        return Some(s);
    }
    if let Some(s) = run_attr(state, name, a) {
        return Some(s);
    }
    run_other(state, name, a)
}

} // verus!
