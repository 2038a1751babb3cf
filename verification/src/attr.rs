//! The attributes: values under dotted paths, to be read and set.

use vstd::prelude::*;
use crate::cmd_set::{apply_setting, set as set_setting};
use crate::cmd_window::{float_at, id_text, set_float_geo};
use crate::frame::WinId;
use crate::monitor::{push_rect, rect_text, show_rect, shown_tags, Rect, Screen, TagId};
use crate::number::{i64_text, parse_u64, parse_usize, show, show_int, u64_text, unsigned};
use crate::reply::{is_failure, is_yes, parse_bool, parse_tag, tag_text, three, two};
use crate::sexpr::{layout_name, name_of_layout};
use crate::state::{State, Window, World};
use crate::table::{
    find_key, find_name, in_order, put, put_name, remove_name, sort_strings, value_of,
};
use crate::text::{
    chars_of, fields, has_prefix, same, split, starts_with, string_of, trim, trimmed, Class, Text,
};
use crate::theme::{color_string, dimming_string, show_color, show_dimming, Settings};

verus! {

/// Yes or no as a word.
pub open spec fn bool_text(b: bool) -> Text {
    if b {
        "true"@
    } else {
        "false"@
    }
}

/// Yes or no as a word.
fn bool_string(b: bool) -> (r: String)
    ensures
        r@ == bool_text(b),
{
    if b {
        "true".to_owned()
    } else {
        "false".to_owned()
    }
}

/// A text that may be missing.
pub open spec fn or_empty(t: Option<Text>) -> Text {
    match t {
        Some(s) => s,
        None => Seq::empty(),
    }
}

/// A string that may be missing.
fn string_or_empty(t: &Option<String>) -> (r: String)
    ensures
        r@ == or_empty(t.deep_view()),
{
    match t {
        Some(s) => s.clone(),
        None => String::new(),
    }
}

// --- a user's attributes ------------------------------------------------------------

/// The parts of a path.
pub open spec fn steps_of(path: Text) -> Seq<Text> {
    fields(path, Class::Is('.'))
}

/// Whether the name is a user's.
pub open spec fn is_own(name: Text) -> bool {
    has_prefix(name, "my_"@)
}

/// The key of an attribute of a window.
pub open spec fn client_key(id: WinId, name: Text) -> Text {
    "clients."@ + show(id as nat) + "."@ + name
}

/// The key of an attribute of a tag.
pub open spec fn tag_key(tag: TagId, name: Text) -> Text {
    "tags."@ + show(tag as nat) + "."@ + name
}

/// The key under which a user's attribute is kept, where the path is that of one.
pub open spec fn own_key(w: World, path: Text) -> Option<Result<Text, Text>> {
    let p = steps_of(path);
    if p.len() == 1 && is_own(p[0]) {
        Some(Ok(p[0]))
    } else if p.len() == 3 && p[0] == "clients"@ && is_own(p[2]) {
        Some(
            if p[1] == "focus"@ {
                match w.focused_window() {
                    Some(id) => Ok(client_key(id, p[2])),
                    None => Err("clients.focus: no focused window"@),
                }
            } else {
                match id_text(p[1]) {
                    Some(id) => if w.has_win(id) {
                        Ok(client_key(id, p[2]))
                    } else {
                        Err("no such window: "@ + show(id as nat))
                    },
                    None => Err("bad window id '"@ + p[1] + "'"@),
                }
            },
        )
    } else if p.len() == 3 && p[0] == "tags"@ && is_own(p[2]) {
        Some(
            if p[1] == "focus"@ {
                Ok(tag_key(w.focused_tag(), p[2]))
            } else {
                match tag_text(p[1]) {
                    Some(t) => Ok(tag_key(t, p[2])),
                    None => Err("bad tag '"@ + p[1] + "'"@),
                }
            },
        )
    } else {
        None
    }
}

/// A result that says what a result of texts says.
pub open spec fn says(r: Result<String, String>, t: Result<Text, Text>) -> bool {
    match t {
        Ok(s) => r is Ok && r->Ok_0@ == s,
        Err(e) => r is Err && r->Err_0@ == e,
    }
}

/// The key of an attribute of a window or of a tag.
fn scoped_key(kind: &str, n: u64, name: &str) -> (r: String)
    ensures
        r@ == kind@ + show(n as nat) + "."@ + name@,
{
    let mut r = kind.to_owned();
    r.append(u64_text(n).as_str());
    r.append(".");
    r.append(name);
    r
}

/// The key under which a user's attribute is kept.
fn canon_user_key(state: &State, path: &str) -> (r: Option<Result<String, String>>)
    requires
        state@.wf(),
    ensures
        r is Some <==> own_key(state@, path@) is Some,
        r is Some ==> says(r->0, own_key(state@, path@)->0),
{
    let p = split(path, Class::Is('.'));
    let ghost q = steps_of(path@);
    assert(p.deep_view() == q);
    if p.len() == 1 {
        assert(q[0] == p@[0]@);
        if starts_with(p[0].as_str(), "my_") {
            return Some(Ok(p[0].clone()));
        }
        return None;
    }
    if p.len() != 3 {
        return None;
    }
    assert(q[0] == p@[0]@ && q[1] == p@[1]@ && q[2] == p@[2]@);
    if !starts_with(p[2].as_str(), "my_") {
        return None;
    }
    if same(p[0].as_str(), "clients") {
        if same(p[1].as_str(), "focus") {
            return Some(
                match state.focused_window() {
                    Some(id) => Ok(scoped_key("clients.", id, p[2].as_str())),
                    None => Err("clients.focus: no focused window".to_owned()),
                },
            );
        }
        return Some(
            match parse_u64(p[1].as_str()) {
                Some(id) => if state.find_win(id) < state.windows.len() {
                    Ok(scoped_key("clients.", id, p[2].as_str()))
                } else {
                    Err(two("no such window: ", u64_text(id).as_str()))
                },
                None => Err(three("bad window id '", p[1].as_str(), "'")),
            },
        );
    }
    if same(p[0].as_str(), "tags") {
        if same(p[1].as_str(), "focus") {
            return Some(Ok(scoped_key("tags.", state.focused_tag() as u64, p[2].as_str())));
        }
        return Some(
            match parse_tag(p[1].as_str()) {
                Some(t) => Ok(scoped_key("tags.", t as u64, p[2].as_str())),
                None => Err(three("bad tag '", p[1].as_str(), "'")),
            },
        );
    }
    None
}

// --- reading ------------------------------------------------------------------------

/// The value of a setting.
pub open spec fn setting_value(s: Settings, name: Text) -> Result<Text, Text> {
    if name == "window_gap"@ || name == "frame_gap"@ {
        Ok(show_int(s.window_gap as int))
    } else if name == "border_width"@ {
        Ok(show_int(s.border_width as int))
    } else if name == "border_color_active"@ {
        Ok(show_color(s.border_active))
    } else if name == "border_color_normal"@ {
        Ok(show_color(s.border_normal))
    } else if name == "border_color_urgent"@ {
        Ok(show_color(s.border_urgent))
    } else if name == "focus_follows_mouse"@ {
        Ok(bool_text(s.focus_follows_mouse))
    } else if name == "raise_on_focus"@ {
        Ok(bool_text(s.raise_on_focus))
    } else if name == "smart_frame_surroundings"@ {
        Ok(bool_text(s.smart_frame_surroundings))
    } else if name == "smart_window_surroundings"@ {
        Ok(bool_text(s.smart_window_surroundings))
    } else if name == "default_frame_layout"@ {
        Ok(layout_name(s.default_frame_layout))
    } else if name == "inactive_dim"@ {
        Ok(show_dimming(s.inactive_dim))
    } else {
        Err("no such setting: "@ + name)
    }
}

/// The value of a setting.
fn settings_get(s: &Settings, name: &str) -> (r: Result<String, String>)
    requires
        crate::theme::is_dimming(s.inactive_dim),
    ensures
        says(r, setting_value(*s, name@)),
{
    if same(name, "window_gap") || same(name, "frame_gap") {
        Ok(i64_text(s.window_gap as i64))
    } else if same(name, "border_width") {
        Ok(i64_text(s.border_width as i64))
    } else if same(name, "border_color_active") {
        Ok(color_string(s.border_active))
    } else if same(name, "border_color_normal") {
        Ok(color_string(s.border_normal))
    } else if same(name, "border_color_urgent") {
        Ok(color_string(s.border_urgent))
    } else if same(name, "focus_follows_mouse") {
        Ok(bool_string(s.focus_follows_mouse))
    } else if same(name, "raise_on_focus") {
        Ok(bool_string(s.raise_on_focus))
    } else if same(name, "smart_frame_surroundings") {
        Ok(bool_string(s.smart_frame_surroundings))
    } else if same(name, "smart_window_surroundings") {
        Ok(bool_string(s.smart_window_surroundings))
    } else if same(name, "default_frame_layout") {
        Ok(name_of_layout(s.default_frame_layout).to_owned())
    } else if same(name, "inactive_dim") {
        Ok(dimming_string(s.inactive_dim))
    } else {
        Err(two("no such setting: ", name))
    }
}

/// How many windows of a tag are urgent.
pub open spec fn urgent_count(windows: Seq<Window>, tag: TagId) -> nat
    decreases windows.len(),
{
    if windows.len() == 0 {
        0
    } else {
        urgent_count(windows.drop_last(), tag) + if windows.last().tag == tag && windows.last().urgent {
            1nat
        } else {
            0nat
        }
    }
}

/// How many windows of a tag are urgent.
fn count_urgent(state: &State, tag: TagId) -> (r: u64)
    ensures
        r == urgent_count(state@.windows, tag),
{
    let ghost all = state.windows@;
    let mut n: usize = 0;
    let mut i: usize = 0;
    assert(all.take(0) =~= Seq::<Window>::empty());
    while i < state.windows.len()
        invariant
            i <= state.windows@.len(),
            all == state.windows@,
            n <= i,
            n == urgent_count(all.take(i as int), tag),
        decreases state.windows@.len() - i,
    {
        assert(all.take(i + 1).drop_last() =~= all.take(i as int));
        assert(all.take(i + 1).last() == all[i as int]);
        if state.windows[i].tag == tag && state.windows[i].urgent {
            n += 1;
        }
        i += 1;
    }
    assert(all.take(i as int) =~= all);
    n as u64
}

/// The value of a tag's attribute.
pub open spec fn tag_value(w: World, tag: TagId, name: Text) -> Result<Text, Text> {
    if name == "name"@ || name == "index"@ {
        Ok(show(tag as nat))
    } else if name == "client_count"@ {
        Ok(
            show(
                match w.tree(tag) {
                    Some(t) => t.windows().len(),
                    None => 0,
                },
            ),
        )
    } else if name == "frame_count"@ {
        Ok(
            show(
                match w.tree(tag) {
                    Some(t) => t.leaves(),
                    None => 1,
                },
            ),
        )
    } else if name == "urgent_count"@ {
        Ok(show(urgent_count(w.windows, tag)))
    } else if name == "visible"@ {
        Ok(bool_text(shown_tags(w.desk.list).contains(tag)))
    } else if name == "floating"@ {
        Ok(bool_text(w.floating_tags.contains(tag)))
    } else {
        Err("tags."@ + show(tag as nat) + (": no such attribute: "@ + name))
    }
}

/// The value of a tag's attribute.
fn tag_get(state: &State, tag: TagId, name: &str) -> (r: Result<String, String>)
    requires
        state@.wf(),
    ensures
        says(r, tag_value(state@, tag, name@)),
{
    let k: usize = find_key(&state.tags, tag as u64);
    proof {
        if k < state.tags@.len() {
            assert(state@.trees[k as int].1 == state.tags@[k as int].1@);
        }
    }
    if same(name, "name") || same(name, "index") {
        Ok(u64_text(tag as u64))
    } else if same(name, "client_count") {
        let n: usize = if k < state.tags.len() {
            state.tags[k].1.all_windows().len()
        } else {
            0
        };
        Ok(u64_text(n as u64))
    } else if same(name, "frame_count") {
        let n: usize = if k < state.tags.len() {
            state.tags[k].1.leaves_total()
        } else {
            1
        };
        Ok(u64_text(n as u64))
    } else if same(name, "urgent_count") {
        Ok(u64_text(count_urgent(state, tag)))
    } else if same(name, "visible") {
        Ok(bool_string(state.monitors.tag_visible(tag)))
    } else if same(name, "floating") {
        Ok(bool_string(state.tag_floats(tag)))
    } else {
        let tail = two(": no such attribute: ", name);
        Err(three("tags.", u64_text(tag as u64).as_str(), tail.as_str()))
    }
}

/// The value of a window's attribute.
pub open spec fn client_value(w: World, id: WinId, name: Text) -> Result<Text, Text> {
    if !w.has_win(id) {
        Err("no such window: "@ + show(id as nat))
    } else {
        let win = w.win(id);
        if name == "winid"@ {
            Ok(show(id as nat))
        } else if name == "app_id"@ || name == "class"@ || name == "instance"@ {
            Ok(or_empty(win.app_id.deep_view()))
        } else if name == "title"@ {
            Ok(or_empty(win.title.deep_view()))
        } else if name == "tag"@ {
            Ok(show(win.tag as nat))
        } else if name == "floating"@ {
            Ok(bool_text(win.floating))
        } else if name == "fullscreen"@ {
            Ok(bool_text(win.fullscreen))
        } else if name == "pseudotile"@ {
            Ok(bool_text(win.pseudotile))
        } else if name == "urgent"@ {
            Ok(bool_text(win.urgent))
        } else if name == "focused"@ {
            Ok(bool_text(w.focused_window() == Some(id)))
        } else if name == "floating_geometry"@ {
            Ok(show_rect(win.float_geo))
        } else {
            Err("clients."@ + show(id as nat) + (": no such attribute: "@ + name))
        }
    }
}

/// The value of a window's attribute.
fn client_get(state: &State, id: WinId, name: &str) -> (r: Result<String, String>)
    requires
        state@.wf(),
    ensures
        says(r, client_value(state@, id, name@)),
{
    let i: usize = state.find_win(id);
    if i == state.windows.len() {
        return Err(two("no such window: ", u64_text(id).as_str()));
    }
    let win = &state.windows[i];
    if same(name, "winid") {
        Ok(u64_text(id))
    } else if same(name, "app_id") || same(name, "class") || same(name, "instance") {
        Ok(string_or_empty(&win.app_id))
    } else if same(name, "title") {
        Ok(string_or_empty(&win.title))
    } else if same(name, "tag") {
        Ok(u64_text(win.tag as u64))
    } else if same(name, "floating") {
        Ok(bool_string(win.floating))
    } else if same(name, "fullscreen") {
        Ok(bool_string(win.fullscreen))
    } else if same(name, "pseudotile") {
        Ok(bool_string(win.pseudotile))
    } else if same(name, "urgent") {
        Ok(bool_string(win.urgent))
    } else if same(name, "focused") {
        let focused: bool = match state.focused_window() {
            Some(f) => f == id,
            None => false,
        };
        Ok(bool_string(focused))
    } else if same(name, "floating_geometry") {
        let mut r = String::new();
        push_rect(&mut r, win.float_geo);
        assert(r@ =~= show_rect(win.float_geo));
        Ok(r)
    } else {
        let tail = two(": no such attribute: ", name);
        Err(three("clients.", u64_text(id).as_str(), tail.as_str()))
    }
}

/// The value of a monitor's attribute.
pub open spec fn monitor_value(w: World, i: int, name: Text) -> Result<Text, Text> {
    if i >= w.desk.list.len() {
        Err("no such monitor: "@ + show(i as nat))
    } else {
        let m = w.desk.list[i];
        if name == "name"@ {
            Ok(or_empty(m.name))
        } else if name == "index"@ {
            Ok(show(i as nat))
        } else if name == "tag"@ {
            Ok(show(m.tag as nat))
        } else if name == "lock_tag"@ {
            Ok(
                match m.locked_tag {
                    Some(t) => show(t as nat),
                    None => Seq::empty(),
                },
            )
        } else if name == "x"@ {
            Ok(show_int(m.rect.x as int))
        } else if name == "y"@ {
            Ok(show_int(m.rect.y as int))
        } else if name == "width"@ {
            Ok(show_int(m.rect.w as int))
        } else if name == "height"@ {
            Ok(show_int(m.rect.h as int))
        } else if name == "focused"@ {
            Ok(bool_text(i == w.desk.focus))
        } else {
            Err("monitors."@ + show(i as nat) + (": no such attribute: "@ + name))
        }
    }
}

/// The value of a monitor's attribute.
fn monitor_get(state: &State, i: usize, name: &str) -> (r: Result<String, String>)
    requires
        state@.wf(),
    ensures
        says(r, monitor_value(state@, i as int, name@)),
{
    if i >= state.monitors.list.len() {
        return Err(two("no such monitor: ", u64_text(i as u64).as_str()));
    }
    let m = &state.monitors.list[i];
    assert(m.deep_view() == state@.desk.list[i as int]);
    if same(name, "name") {
        Ok(string_or_empty(&m.name))
    } else if same(name, "index") {
        Ok(u64_text(i as u64))
    } else if same(name, "tag") {
        Ok(u64_text(m.tag as u64))
    } else if same(name, "lock_tag") {
        Ok(
            match m.locked_tag {
                Some(t) => u64_text(t as u64),
                None => String::new(),
            },
        )
    } else if same(name, "x") {
        Ok(i64_text(m.rect.x as i64))
    } else if same(name, "y") {
        Ok(i64_text(m.rect.y as i64))
    } else if same(name, "width") {
        Ok(i64_text(m.rect.w as i64))
    } else if same(name, "height") {
        Ok(i64_text(m.rect.h as i64))
    } else if same(name, "focused") {
        Ok(bool_string(i == state.monitors.focus))
    } else {
        let tail = two(": no such attribute: ", name);
        Err(three("monitors.", u64_text(i as u64).as_str(), tail.as_str()))
    }
}

/// What is said of a path that leads nowhere.
pub open spec fn nowhere(path: Text) -> Text {
    "no such attribute: "@ + path
}

/// The value of an attribute of the window manager itself.
pub open spec fn built_in(w: World, path: Text) -> Result<Text, Text> {
    let p = steps_of(path);
    if p.len() == 2 && p[0] == "settings"@ {
        setting_value(w.settings, p[1])
    } else if p.len() == 2 && p[0] == "tags"@ && p[1] == "count"@ {
        Ok(show(w.trees.len()))
    } else if p.len() == 2 && p[0] == "tags"@ && p[1] == "focus"@ {
        Ok(show(w.focused_tag() as nat))
    } else if p.len() == 3 && p[0] == "tags"@ {
        match tag_text(p[1]) {
            Some(t) => tag_value(w, t, p[2]),
            None => Err("bad tag '"@ + p[1] + "'"@),
        }
    } else if p.len() == 2 && p[0] == "clients"@ && p[1] == "count"@ {
        Ok(show(w.windows.len()))
    } else if p.len() == 3 && p[0] == "clients"@ && p[1] == "focus"@ {
        match w.focused_window() {
            Some(id) => client_value(w, id, p[2]),
            None => Err("clients.focus: no focused window"@),
        }
    } else if p.len() == 3 && p[0] == "clients"@ {
        match id_text(p[1]) {
            Some(id) => client_value(w, id, p[2]),
            None => Err("bad window id '"@ + p[1] + "'"@),
        }
    } else if p.len() == 2 && p[0] == "monitors"@ && p[1] == "count"@ {
        Ok(show(w.desk.list.len()))
    } else if p.len() == 2 && p[0] == "monitors"@ && p[1] == "focus"@ {
        Ok(show(w.desk.focus as nat))
    } else if p.len() == 3 && p[0] == "monitors"@ {
        match unsigned(p[1], usize::MAX as int) {
            Some(i) => monitor_value(w, i, p[2]),
            None => Err("bad monitor '"@ + p[1] + "'"@),
        }
    } else {
        Err(nowhere(path))
    }
}

/// The value of an attribute.
pub open spec fn attr_value(w: World, path: Text) -> Result<Text, Text> {
    match own_key(w, path) {
        Some(Ok(k)) => match value_of(w.user_attrs, k) {
            Some(v) => Ok(v),
            None => Err(nowhere(path)),
        },
        Some(Err(e)) => Err(e),
        None => built_in(w, path),
    }
}

/// The value of an attribute of the window manager itself.
fn get_built_in(state: &State, path: &str) -> (r: Result<String, String>)
    requires
        state@.wf(),
    ensures
        says(r, built_in(state@, path@)),
{
    let p = split(path, Class::Is('.'));
    let ghost q = steps_of(path@);
    assert(p.deep_view() == q);
    if p.len() == 2 {
        assert(q[0] == p@[0]@ && q[1] == p@[1]@);
        let a = p[0].as_str();
        let b = p[1].as_str();
        if same(a, "settings") {
            settings_get(&state.settings, b)
        } else if same(a, "tags") && same(b, "count") {
            Ok(u64_text(state.tags.len() as u64))
        } else if same(a, "tags") && same(b, "focus") {
            Ok(u64_text(state.focused_tag() as u64))
        } else if same(a, "clients") && same(b, "count") {
            Ok(u64_text(state.windows.len() as u64))
        } else if same(a, "monitors") && same(b, "count") {
            Ok(u64_text(state.monitors.list.len() as u64))
        } else if same(a, "monitors") && same(b, "focus") {
            Ok(u64_text(state.monitors.focus as u64))
        } else {
            Err(two("no such attribute: ", path))
        }
    } else if p.len() == 3 {
        assert(q[0] == p@[0]@ && q[1] == p@[1]@ && q[2] == p@[2]@);
        let a = p[0].as_str();
        let b = p[1].as_str();
        let c = p[2].as_str();
        if same(a, "tags") {
            match parse_tag(b) {
                Some(t) => tag_get(state, t, c),
                None => Err(three("bad tag '", b, "'")),
            }
        } else if same(a, "clients") && same(b, "focus") {
            match state.focused_window() {
                Some(id) => client_get(state, id, c),
                None => Err("clients.focus: no focused window".to_owned()),
            }
        } else if same(a, "clients") {
            match parse_u64(b) {
                Some(id) => client_get(state, id, c),
                None => Err(three("bad window id '", b, "'")),
            }
        } else if same(a, "monitors") {
            match parse_usize(b) {
                Some(i) => monitor_get(state, i, c),
                None => Err(three("bad monitor '", b, "'")),
            }
        } else {
            Err(two("no such attribute: ", path))
        }
    } else {
        Err(two("no such attribute: ", path))
    }
}

/// Reads an attribute.
pub fn get(state: &State, path: &str) -> (r: Result<String, String>)
    requires
        state@.wf(),
    ensures
        says(r, attr_value(state@, path@)),
{
    match canon_user_key(state, path) {
        Some(Ok(k)) => {
            let i: usize = find_name(&state.user_attrs, k.as_str());
            if i < state.user_attrs.len() {
                assert(state@.user_attrs[i as int].1 == state.user_attrs@[i as int].1@);
                Ok(state.user_attrs[i].1.clone())
            } else {
                Err(two("no such attribute: ", path))
            }
        },
        Some(Err(e)) => Err(e),
        None => get_built_in(state, path),
    }
}

// --- setting ------------------------------------------------------------------------

/// A window's attribute set.
pub open spec fn set_client(w: World, id: WinId, name: Text, v: Text) -> Result<World, Text> {
    let on = is_yes(v);
    if !w.has_win(id) {
        Err("no such window: "@ + show(id as nat))
    } else if name == "fullscreen"@ {
        Ok(w.with_win(id, Window { fullscreen: on, ..w.win(id) }).manage())
    } else if name == "pseudotile"@ {
        Ok(w.with_win(id, Window { pseudotile: on, ..w.win(id) }).manage())
    } else if name == "urgent"@ {
        Ok(w.with_win(id, Window { urgent: on, ..w.win(id) }).manage())
    } else if name == "floating"@ {
        Ok(
            if on {
                w.make_floating(id, w.last_or_default(id)).manage()
            } else {
                w.with_win(id, Window { floating: false, ..w.win(id) }).manage()
            },
        )
    } else if name == "floating_geometry"@ {
        match rect_text(v) {
            Some(g) => Ok(float_at(w, id, g).manage()),
            None => Err("bad geometry '"@ + v + "' (want WxH+X+Y)"@),
        }
    } else {
        Err("clients."@ + show(id as nat) + (": attribute not writable: "@ + name))
    }
}

/// A monitor's attribute set.
pub open spec fn set_monitor(w: World, i: int, name: Text, v: Text) -> Result<World, Text> {
    if name == "tag"@ {
        match tag_text(v) {
            None => Err("bad tag '"@ + v + "'"@),
            Some(tag) => if i >= w.desk.list.len() {
                Err("no such monitor: "@ + show(i as nat))
            } else {
                let m = w.desk.list[i];
                Ok(
                    if m.locked_tag is None || m.locked_tag == Some(tag) {
                        (World { desk: w.desk.with_screen(i, (Screen { tag, ..m })), ..w }).manage()
                    } else {
                        w.manage()
                    },
                )
            },
        }
    } else if name == "name"@ {
        if i >= w.desk.list.len() {
            Err("no such monitor: "@ + show(i as nat))
        } else {
            let own = if v.len() == 0 {
                None
            } else {
                Some(v)
            };
            Ok(
                (World {
                    desk: w.desk.with_screen(i, (Screen { name: own, ..w.desk.list[i] })),
                    ..w
                }).manage(),
            )
        }
    } else {
        Err("monitors."@ + show(i as nat) + (": attribute not writable: "@ + name))
    }
}

/// An attribute of the window manager itself set.
pub open spec fn set_built_in(w: World, path: Text, v: Text) -> (World, Result<(), Text>) {
    let p = steps_of(path);
    if p.len() == 2 && p[0] == "settings"@ {
        let (u, reply) = set_setting(w, seq![p[1], v]);
        (
            u,
            if is_failure(reply) {
                Err(trimmed(reply.skip(6)))
            } else {
                Ok(())
            },
        )
    } else {
        let done: Result<World, Text> = if p.len() == 3 && p[0] == "clients"@ && p[1] == "focus"@ {
            match w.focused_window() {
                Some(id) => set_client(w, id, p[2], v),
                None => Err("clients.focus: no focused window"@),
            }
        } else if p.len() == 3 && p[0] == "clients"@ {
            match id_text(p[1]) {
                Some(id) => set_client(w, id, p[2], v),
                None => Err("bad window id '"@ + p[1] + "'"@),
            }
        } else if p.len() == 3 && p[0] == "monitors"@ {
            match unsigned(p[1], usize::MAX as int) {
                Some(i) => set_monitor(w, i, p[2], v),
                None => Err("bad monitor '"@ + p[1] + "'"@),
            }
        } else {
            Err("attribute not writable: "@ + path)
        };
        match done {
            Ok(u) => (u, Ok(())),
            Err(e) => (w, Err(e)),
        }
    }
}

/// An attribute set.
pub open spec fn set_attr(w: World, path: Text, v: Text) -> (World, Result<(), Text>) {
    match own_key(w, path) {
        Some(Ok(k)) => match value_of(w.user_attrs, k) {
            Some(_) => (World { user_attrs: put(w.user_attrs, k, v), ..w }, Ok(())),
            None => (
                w,
                Err("no such attribute: "@ + path + " (create it with new_attr)"@),
            ),
        },
        Some(Err(e)) => (w, Err(e)),
        None => set_built_in(w, path, v),
    }
}

/// A result that says what a result of texts says.
pub open spec fn tells(r: Result<(), String>, t: Result<(), Text>) -> bool {
    match t {
        Ok(_) => r is Ok,
        Err(e) => r is Err && r->Err_0@ == e,
    }
}

/// The state and the result that come of an action that may fail.
pub open spec fn comes_of(w: World, done: Result<World, Text>, v: World, r: Result<(), String>) -> bool {
    match done {
        Ok(u) => v == u && r is Ok,
        Err(e) => v == w && r is Err && r->Err_0@ == e,
    }
}

/// Makes a window fill its monitor, or not.
fn set_fullscreen(state: &mut State, id: WinId, on: bool)
    requires
        old(state)@.wf(),
        old(state)@.has_win(id),
    ensures
        final(state)@ == old(state)@.with_win(id, Window { fullscreen: on, ..old(state)@.win(id) }),
        final(state)@.wf(),
{
    if let Some(w) = state.win_mut(id) {
        w.fullscreen = on;
    }
}

/// Lets a window keep its size, or not.
fn set_pseudotile(state: &mut State, id: WinId, on: bool)
    requires
        old(state)@.wf(),
        old(state)@.has_win(id),
    ensures
        final(state)@ == old(state)@.with_win(id, Window { pseudotile: on, ..old(state)@.win(id) }),
        final(state)@.wf(),
{
    if let Some(w) = state.win_mut(id) {
        w.pseudotile = on;
    }
}

/// Makes a window urgent, or not.
fn set_urgent(state: &mut State, id: WinId, on: bool)
    requires
        old(state)@.wf(),
        old(state)@.has_win(id),
    ensures
        final(state)@ == old(state)@.with_win(id, Window { urgent: on, ..old(state)@.win(id) }),
        final(state)@.wf(),
{
    if let Some(w) = state.win_mut(id) {
        w.urgent = on;
    }
}

/// Makes a window float, or not.
fn set_floating(state: &mut State, id: WinId, on: bool)
    requires
        old(state)@.wf(),
        old(state)@.has_win(id),
    ensures
        final(state)@ == if on {
            old(state)@.make_floating(id, old(state)@.last_or_default(id))
        } else {
            old(state)@.with_win(id, Window { floating: false, ..old(state)@.win(id) })
        },
        final(state)@.wf(),
{
    if on {
        let geo = state.last_or_default(id);
        state.make_floating(id, geo);
    } else {
        if let Some(w) = state.win_mut(id) {
            w.floating = false;
        }
    }
}

/// Sets a window's attribute.
fn client_set(state: &mut State, id: WinId, name: &str, v: &str) -> (r: Result<(), String>)
    requires
        old(state)@.wf(),
    ensures
        comes_of(old(state)@, set_client(old(state)@, id, name@, v@), final(state)@, r),
        final(state)@.wf(),
{
    let on: bool = parse_bool(v);
    if state.find_win(id) == state.windows.len() {
        return Err(two("no such window: ", u64_text(id).as_str()));
    }
    if same(name, "fullscreen") {
        set_fullscreen(state, id, on);
    } else if same(name, "pseudotile") {
        set_pseudotile(state, id, on);
    } else if same(name, "urgent") {
        set_urgent(state, id, on);
    } else if same(name, "floating") {
        set_floating(state, id, on);
    } else if same(name, "floating_geometry") {
        match Rect::parse(v) {
            Some(g) => set_float_geo(state, id, g),
            None => {
                return Err(three("bad geometry '", v, "' (want WxH+X+Y)"));
            },
        }
    } else {
        let tail = two(": attribute not writable: ", name);
        return Err(three("clients.", u64_text(id).as_str(), tail.as_str()));
    }
    state.request_manage();
    Ok(())
}

/// Sets a monitor's attribute.
fn monitor_set(state: &mut State, i: usize, name: &str, v: &str) -> (r: Result<(), String>)
    requires
        old(state)@.wf(),
    ensures
        comes_of(old(state)@, set_monitor(old(state)@, i as int, name@, v@), final(state)@, r),
        final(state)@.wf(),
{
    let ghost w = state@;
    if same(name, "tag") {
        match parse_tag(v) {
            None => {
                return Err(three("bad tag '", v, "'"));
            },
            Some(tag) => {
                if i >= state.monitors.list.len() {
                    return Err(two("no such monitor: ", u64_text(i as u64).as_str()));
                }
                let free: bool = match state.monitors.list[i].locked_tag {
                    None => true,
                    Some(t) => t == tag,
                };
                assert(w.desk.list[i as int].locked_tag == state.monitors.list@[i as int].locked_tag);
                if free {
                    state.monitors.list[i].tag = tag;
                    assert(state@.desk.list =~= w.desk.with_screen(
                        i as int,
                        (Screen { tag, ..w.desk.list[i as int] }),
                    ).list);
                }
            },
        }
    } else if same(name, "name") {
        if i >= state.monitors.list.len() {
            return Err(two("no such monitor: ", u64_text(i as u64).as_str()));
        }
        state.monitors.list[i].name = if v.is_empty() {
            None
        } else {
            Some(v.to_owned())
        };
        let ghost own = if v@.len() == 0 {
            None
        } else {
            Some(v@)
        };
        assert(state@.desk.list =~= w.desk.with_screen(
            i as int,
            (Screen { name: own, ..w.desk.list[i as int] }),
        ).list);
    } else {
        let tail = two(": attribute not writable: ", name);
        return Err(three("monitors.", u64_text(i as u64).as_str(), tail.as_str()));
    }
    state.request_manage();
    Ok(())
}

/// Sets an attribute of the window manager itself.
fn built_in_set(state: &mut State, path: &str, v: &str) -> (r: Result<(), String>)
    requires
        old(state)@.wf(),
    ensures
        final(state)@ == set_built_in(old(state)@, path@, v@).0,
        tells(r, set_built_in(old(state)@, path@, v@).1),
        final(state)@.wf(),
{
    let p = split(path, Class::Is('.'));
    let ghost q = steps_of(path@);
    assert(p.deep_view() == q);
    if p.len() == 2 {
        assert(q[0] == p@[0]@ && q[1] == p@[1]@);
        if same(p[0].as_str(), "settings") {
            let reply = apply_setting(state, p[1].as_str(), v);
            return if crate::reply::failed(reply.as_str()) {
                let c = chars_of(reply.as_str());
                proof {
                    reveal_strlit("error:");
                }
                let rest = string_of(&c, 6, c.len());
                assert(rest@ =~= reply@.skip(6));
                Err(trim(rest.as_str()))
            } else {
                Ok(())
            };
        }
    } else if p.len() == 3 {
        assert(q[0] == p@[0]@ && q[1] == p@[1]@ && q[2] == p@[2]@);
        if same(p[0].as_str(), "clients") {
            if same(p[1].as_str(), "focus") {
                return match state.focused_window() {
                    Some(id) => client_set(state, id, p[2].as_str(), v),
                    None => Err("clients.focus: no focused window".to_owned()),
                };
            }
            return match parse_u64(p[1].as_str()) {
                Some(id) => client_set(state, id, p[2].as_str(), v),
                None => Err(three("bad window id '", p[1].as_str(), "'")),
            };
        }
        if same(p[0].as_str(), "monitors") {
            return match parse_usize(p[1].as_str()) {
                Some(i) => monitor_set(state, i, p[2].as_str(), v),
                None => Err(three("bad monitor '", p[1].as_str(), "'")),
            };
        }
    }
    Err(two("attribute not writable: ", path))
}

/// Sets an attribute.
pub fn set(state: &mut State, path: &str, v: &str) -> (r: Result<(), String>)
    requires
        old(state)@.wf(),
    ensures
        final(state)@ == set_attr(old(state)@, path@, v@).0,
        tells(r, set_attr(old(state)@, path@, v@).1),
        final(state)@.wf(),
{
    match canon_user_key(state, path) {
        Some(Ok(k)) => {
            let i: usize = find_name(&state.user_attrs, k.as_str());
            if i < state.user_attrs.len() {
                put_name(&mut state.user_attrs, k, v.to_owned());
                Ok(())
            } else {
                Err(three("no such attribute: ", path, " (create it with new_attr)"))
            }
        },
        Some(Err(e)) => Err(e),
        None => built_in_set(state, path, v),
    }
}

// --- making and dropping --------------------------------------------------------------

/// What an attribute of a type holds at first.
pub open spec fn first_value(ty: Text) -> Option<Text> {
    if ty == "bool"@ {
        Some("false"@)
    } else if ty == "int"@ || ty == "uint"@ {
        Some("0"@)
    } else if ty == "string"@ {
        Some(""@)
    } else if ty == "color"@ {
        Some("#000000ff"@)
    } else {
        None
    }
}

/// An attribute made.
pub open spec fn make_attr(w: World, ty: Text, path: Text) -> Result<World, Text> {
    match own_key(w, path) {
        None => Err(
            "new_attr: user attribute names must start with 'my_' (optionally under clients.* or tags.*)"@,
        ),
        Some(Err(e)) => Err(e),
        Some(Ok(k)) => if value_of(w.user_attrs, k) is Some {
            Err("new_attr: "@ + path + " already exists"@)
        } else {
            match first_value(ty) {
                Some(v) => Ok(World { user_attrs: put(w.user_attrs, k, v), ..w }),
                None => Err("new_attr: unknown type '"@ + ty + "'"@),
            }
        },
    }
}

/// Makes an attribute.
pub fn new_attr(state: &mut State, ty: &str, path: &str) -> (r: Result<(), String>)
    requires
        old(state)@.wf(),
    ensures
        comes_of(old(state)@, make_attr(old(state)@, ty@, path@), final(state)@, r),
        final(state)@.wf(),
{
    match canon_user_key(state, path) {
        None => Err(
            "new_attr: user attribute names must start with 'my_' (optionally under clients.* or tags.*)".to_owned(),
        ),
        Some(Err(e)) => Err(e),
        Some(Ok(k)) => {
            if find_name(&state.user_attrs, k.as_str()) < state.user_attrs.len() {
                return Err(three("new_attr: ", path, " already exists"));
            }
            let value: &str = if same(ty, "bool") {
                "false"
            } else if same(ty, "int") || same(ty, "uint") {
                "0"
            } else if same(ty, "string") {
                ""
            } else if same(ty, "color") {
                "#000000ff"
            } else {
                return Err(three("new_attr: unknown type '", ty, "'"));
            };
            put_name(&mut state.user_attrs, k, value.to_owned());
            Ok(())
        },
    }
}

/// An attribute dropped.
pub open spec fn drop_attr(w: World, path: Text) -> Result<World, Text> {
    match own_key(w, path) {
        None => Err("remove_attr: not a user attribute: "@ + path),
        Some(Err(e)) => Err(e),
        Some(Ok(k)) => if value_of(w.user_attrs, k) is Some {
            Ok(World { user_attrs: crate::table::drop_key(w.user_attrs, k), ..w })
        } else {
            Err("remove_attr: no such attribute: "@ + path)
        },
    }
}

/// Drops an attribute.
pub fn remove_attr(state: &mut State, path: &str) -> (r: Result<(), String>)
    requires
        old(state)@.wf(),
    ensures
        comes_of(old(state)@, drop_attr(old(state)@, path@), final(state)@, r),
        final(state)@.wf(),
{
    match canon_user_key(state, path) {
        None => Err(two("remove_attr: not a user attribute: ", path)),
        Some(Err(e)) => Err(e),
        Some(Ok(k)) => if remove_name(&mut state.user_attrs, k.as_str()) {
            Ok(())
        } else {
            Err(two("remove_attr: no such attribute: ", path))
        },
    }
}

/// The attributes whose keys do not start with `pre`.
pub open spec fn without_prefix(attrs: Seq<(Text, Text)>, pre: Text) -> Seq<(Text, Text)>
    decreases attrs.len(),
{
    if attrs.len() == 0 {
        attrs
    } else if has_prefix(attrs.last().0, pre) {
        without_prefix(attrs.drop_last(), pre)
    } else {
        without_prefix(attrs.drop_last(), pre).push(attrs.last())
    }
}

/// Drops the attributes of a window that is gone.
pub fn drop_client_attrs(state: &mut State, id: WinId)
    requires
        old(state)@.wf(),
    ensures
        final(state)@ == (World {
            user_attrs: without_prefix(
                old(state)@.user_attrs,
                "clients."@ + show(id as nat) + "."@,
            ),
            ..old(state)@
        }),
        final(state)@.wf(),
{
    let pre = three("clients.", u64_text(id).as_str(), ".");
    let left = attrs_without(&state.user_attrs, pre.as_str());
    state.user_attrs = left;
}

fn attrs_without(attrs: &Vec<(String, String)>, pre: &str) -> (r: Vec<(String, String)>)
    ensures
        r.deep_view() == without_prefix(attrs.deep_view(), pre@),
{
    let ghost all = attrs.deep_view();
    let mut r: Vec<(String, String)> = Vec::new();
    let mut i: usize = 0;
    assert(all.take(0) =~= Seq::<(Text, Text)>::empty());
    assert(r.deep_view() =~= Seq::<(Text, Text)>::empty());
    while i < attrs.len()
        invariant
            i <= attrs@.len(),
            all == attrs.deep_view(),
            r.deep_view() == without_prefix(all.take(i as int), pre@),
        decreases attrs@.len() - i,
    {
        let ghost before = r.deep_view();
        assert(all.take(i + 1).drop_last() =~= all.take(i as int));
        assert(all.take(i + 1).last() == attrs@[i as int].deep_view());
        if !starts_with(attrs[i].0.as_str(), pre) {
            r.push((attrs[i].0.clone(), attrs[i].1.clone()));
            assert(r.deep_view() =~= before.push(attrs@[i as int].deep_view()));
        }
        i += 1;
    }
    assert(all.take(i as int) =~= all);
    r
}

// --- listing --------------------------------------------------------------------------

/// The keys of the attributes.
pub open spec fn attr_keys(attrs: Seq<(Text, Text)>) -> Seq<Text> {
    attrs.map_values(|p: (Text, Text)| p.0)
}

/// A line for each of the keys, with its value.
pub open spec fn own_lines(attrs: Seq<(Text, Text)>, keys: Seq<Text>) -> Text
    decreases keys.len(),
{
    if keys.len() == 0 {
        Seq::empty()
    } else {
        own_lines(attrs, keys.drop_last()) + "  "@ + keys.last() + " = \""@ + or_empty(
            value_of(attrs, keys.last()),
        ) + "\"\n"@
    }
}

/// A line for each of the names under a path, with its value.
pub open spec fn named_lines(w: World, path: Text, names: Seq<Text>) -> Text
    decreases names.len(),
{
    if names.len() == 0 {
        Seq::empty()
    } else {
        let n = names.last();
        let v = match attr_value(w, path + "."@ + n) {
            Ok(v) => v,
            Err(_) => Seq::empty(),
        };
        named_lines(w, path, names.drop_last()) + n + " = \""@ + v + "\"\n"@
    }
}

/// The settings that are listed.
pub open spec fn setting_names() -> Seq<Text> {
    seq![
        "window_gap"@,
        "border_width"@,
        "border_color_active"@,
        "border_color_normal"@,
        "border_color_urgent"@,
        "focus_follows_mouse"@,
        "raise_on_focus"@,
        "smart_frame_surroundings"@,
        "smart_window_surroundings"@,
        "default_frame_layout"@,
        "inactive_dim"@,
    ]
}

/// The attributes of the focused window that are listed.
pub open spec fn client_names() -> Seq<Text> {
    seq![
        "winid"@,
        "app_id"@,
        "title"@,
        "tag"@,
        "floating"@,
        "fullscreen"@,
        "pseudotile"@,
        "urgent"@,
    ]
}

/// `attr [path]`: what there is, or a value, or the values under a path.
pub open spec fn attr_listing(w: World, a: Seq<Text>) -> Text {
    if a.len() == 0 {
        "objects:\n  clients.\n  monitors.\n  settings.\n  tags.\nattributes:\n"@ + own_lines(
            w.user_attrs,
            in_order(attr_keys(w.user_attrs)),
        )
    } else {
        match attr_value(w, a[0]) {
            Ok(v) => v + "\n"@,
            Err(_) => if a[0] == "settings"@ {
                named_lines(w, a[0], setting_names())
            } else if a[0] == "clients.focus"@ {
                named_lines(w, a[0], client_names())
            } else {
                "error: no such object: "@ + a[0] + "\n"@
            },
        }
    }
}

/// The names of the settings that are listed.
fn list_setting_names() -> (r: Vec<String>)
    ensures
        r.deep_view() == setting_names(),
{
    let mut r: Vec<String> = Vec::new();
    r.push("window_gap".to_owned());
    r.push("border_width".to_owned());
    r.push("border_color_active".to_owned());
    r.push("border_color_normal".to_owned());
    r.push("border_color_urgent".to_owned());
    r.push("focus_follows_mouse".to_owned());
    r.push("raise_on_focus".to_owned());
    r.push("smart_frame_surroundings".to_owned());
    r.push("smart_window_surroundings".to_owned());
    r.push("default_frame_layout".to_owned());
    r.push("inactive_dim".to_owned());
    assert(r.deep_view() =~= setting_names());
    r
}

/// The names of a window's attributes that are listed.
fn list_client_names() -> (r: Vec<String>)
    ensures
        r.deep_view() == client_names(),
{
    let mut r: Vec<String> = Vec::new();
    r.push("winid".to_owned());
    r.push("app_id".to_owned());
    r.push("title".to_owned());
    r.push("tag".to_owned());
    r.push("floating".to_owned());
    r.push("fullscreen".to_owned());
    r.push("pseudotile".to_owned());
    r.push("urgent".to_owned());
    assert(r.deep_view() =~= client_names());
    r
}

fn write_named(state: &State, path: &str, names: &Vec<String>) -> (r: String)
    requires
        state@.wf(),
    ensures
        r@ == named_lines(state@, path@, names.deep_view()),
{
    let ghost all = names.deep_view();
    let mut r = String::new();
    let mut i: usize = 0;
    assert(all.take(0) =~= Seq::<Text>::empty());
    while i < names.len()
        invariant
            i <= names@.len(),
            all == names.deep_view(),
            state@.wf(),
            r@ == named_lines(state@, path@, all.take(i as int)),
        decreases names@.len() - i,
    {
        assert(all.take(i + 1).drop_last() =~= all.take(i as int));
        assert(all.take(i + 1).last() == names@[i as int]@);
        let full = three(path, ".", names[i].as_str());
        let v: String = match get(state, full.as_str()) {
            Ok(v) => v,
            Err(_) => String::new(),
        };
        r.append(names[i].as_str());
        r.append(" = \"");
        r.append(v.as_str());
        r.append("\"\n");
        i += 1;
    }
    assert(all.take(i as int) =~= all);
    r
}

fn write_own(attrs: &Vec<(String, String)>, keys: &Vec<String>, out: &mut String)
    ensures
        final(out)@ == old(out)@ + own_lines(attrs.deep_view(), keys.deep_view()),
{
    let ghost all = keys.deep_view();
    let ghost table = attrs.deep_view();
    let mut i: usize = 0;
    assert(all.take(0) =~= Seq::<Text>::empty());
    assert(out@ =~= old(out)@ + own_lines(table, all.take(0)));
    while i < keys.len()
        invariant
            i <= keys@.len(),
            all == keys.deep_view(),
            table == attrs.deep_view(),
            out@ == old(out)@ + own_lines(table, all.take(i as int)),
        decreases keys@.len() - i,
    {
        assert(all.take(i + 1).drop_last() =~= all.take(i as int));
        assert(all.take(i + 1).last() == keys@[i as int]@);
        out.append("  ");
        out.append(keys[i].as_str());
        out.append(" = \"");
        let k: usize = find_name(attrs, keys[i].as_str());
        if k < attrs.len() {
            assert(table[k as int].1 == attrs@[k as int].1@);
            out.append(attrs[k].1.as_str());
        }
        out.append("\"\n");
        i += 1;
        assert(out@ =~= old(out)@ + own_lines(table, all.take(i as int)));
    }
    assert(all.take(i as int) =~= all);
}

fn keys_of(attrs: &Vec<(String, String)>) -> (r: Vec<String>)
    ensures
        r.deep_view() == attr_keys(attrs.deep_view()),
{
    let ghost all = attr_keys(attrs.deep_view());
    let mut r: Vec<String> = Vec::new();
    let mut i: usize = 0;
    assert(r.deep_view() =~= all.take(0));
    while i < attrs.len()
        invariant
            i <= attrs@.len(),
            all == attr_keys(attrs.deep_view()),
            r.deep_view() == all.take(i as int),
        decreases attrs@.len() - i,
    {
        let ghost before = r.deep_view();
        r.push(attrs[i].0.clone());
        i += 1;
        assert(r.deep_view() =~= before.push(all[i - 1]));
        assert(all.take(i as int) =~= all.take(i - 1).push(all[i - 1]));
    }
    assert(all.take(i as int) =~= all);
    r
}

/// Lists attributes.
pub fn list(state: &State, a: &[String]) -> (r: String)
    requires
        state@.wf(),
    ensures
        r@ == attr_listing(state@, a.deep_view()),
{
    if a.len() == 0 {
        let mut r = "objects:\n  clients.\n  monitors.\n  settings.\n  tags.\nattributes:\n".to_owned();
        let keys = sort_strings(&keys_of(&state.user_attrs));
        write_own(&state.user_attrs, &keys, &mut r);
        return r;
    }
    assert(a.deep_view()[0] == a@[0]@);
    match get(state, a[0].as_str()) {
        Ok(v) => two(v.as_str(), "\n"),
        Err(_) => if same(a[0].as_str(), "settings") {
            write_named(state, a[0].as_str(), &list_setting_names())
        } else if same(a[0].as_str(), "clients.focus") {
            write_named(state, a[0].as_str(), &list_client_names())
        } else {
            three("error: no such object: ", a[0].as_str(), "\n")
        },
    }
}

/// A user's attribute that was set reads back as it was set.
pub proof fn law_set_then_get(w: World, path: Text, v: Text)
    requires
        own_key(w, path) is Some,
        set_attr(w, path, v).1 is Ok,
        crate::table::keys_differ(w.user_attrs),
    ensures
        attr_value(set_attr(w, path, v).0, path) == Ok::<Text, Text>(v),
{
    let k = own_key(w, path)->0->Ok_0;
    crate::table::law_put(w.user_attrs, k, v, k);
    let u = set_attr(w, path, v).0;
    assert(own_key(u, path) == own_key(w, path));
}

/// An attribute that was made is there, and after it is dropped it is not.
pub proof fn law_make_then_drop(w: World, ty: Text, path: Text)
    requires
        make_attr(w, ty, path) is Ok,
        crate::table::keys_differ(w.user_attrs),
    ensures
        attr_value(make_attr(w, ty, path)->Ok_0, path) is Ok,
        drop_attr(make_attr(w, ty, path)->Ok_0, path) is Ok,
        attr_value(drop_attr(make_attr(w, ty, path)->Ok_0, path)->Ok_0, path) is Err,
{
    let k = own_key(w, path)->0->Ok_0;
    let v = first_value(ty)->0;
    crate::table::law_put(w.user_attrs, k, v, k);
    let u = make_attr(w, ty, path)->Ok_0;
    assert(own_key(u, path) == own_key(w, path));
    crate::table::law_drop_key(u.user_attrs, k, k);
    let x = drop_attr(u, path)->Ok_0;
    assert(own_key(x, path) == own_key(w, path));
}

} // verus!
