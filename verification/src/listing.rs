//! Commands that list what there is.

use vstd::prelude::*;
use crate::frame::WinId;
use crate::monitor::{
    find_screen, push_rect, selector_text, show_rect, shown_tags, Monitor, MonitorSel, Screen, TagId,
};
use crate::number::{push_i64, push_u64, show, show_int, u64_text};
use crate::rules::{quoted_name, rule_line, Condition};
use crate::state::{Binding, Output, State, Window, World};
use crate::table::{find_key, find_name, in_order, sort_strings, value_of};
use crate::text::{join, join_from, Text};

verus! {

/// A listing, or what is said where it is empty.
pub open spec fn or_none(t: Text, none: Text) -> Text {
    if t.len() == 0 {
        none
    } else {
        t
    }
}

/// A listing, or what is said where it is empty.
fn listed(t: String, none: &str) -> (r: String)
    ensures
        r@ == or_none(t@, none@),
{
    if t.as_str().is_empty() {
        none.to_owned()
    } else {
        t
    }
}

/// A text that may be missing; a dash where it is.
pub open spec fn or_dash(t: Option<Text>) -> Text {
    match t {
        Some(s) => s,
        None => "-"@,
    }
}

fn push_or_dash(out: &mut String, t: &Option<String>)
    ensures
        final(out)@ == old(out)@ + or_dash(t.deep_view()),
{
    match t {
        Some(s) => out.append(s.as_str()),
        None => out.append("-"),
    }
}

// --- monitors -----------------------------------------------------------------------------

/// The line of a monitor.
pub open spec fn monitor_line(m: Screen, i: int, focused: bool) -> Text {
    show(i as nat) + ": id="@ + show(m.id.0 as nat) + " name="@ + or_dash(m.name) + " "@ + show_rect(
        m.rect,
    ) + " z="@ + show_int(m.z as int) + " tag="@ + show(m.tag as nat) + " lock="@ + (match m.locked_tag {
        Some(t) => show(t as nat),
        None => "-"@,
    }) + (if focused {
        " [focused]\n"@
    } else {
        "\n"@
    })
}

/// The lines of the first `n` monitors.
pub open spec fn monitor_lines(list: Seq<Screen>, focus: int, n: nat) -> Text
    decreases n,
{
    if n == 0 {
        Seq::empty()
    } else {
        monitor_lines(list, focus, (n - 1) as nat) + monitor_line(list[n - 1], n - 1, n - 1 == focus)
    }
}

/// `list_monitors`.
pub open spec fn list_of_monitors(w: World) -> Text {
    or_none(monitor_lines(w.desk.list, w.desk.focus, w.desk.list.len()), "(no monitors)\n"@)
}

fn write_monitor(m: &Monitor, i: usize, focused: bool) -> (r: String)
    ensures
        r@ == monitor_line(m.deep_view(), i as int, focused),
{
    let mut out = u64_text(i as u64);
    out.append(": id=");
    push_u64(&mut out, m.id.0 as u64);
    out.append(" name=");
    push_or_dash(&mut out, &m.name);
    out.append(" ");
    push_rect(&mut out, m.rect);
    out.append(" z=");
    push_i64(&mut out, m.z as i64);
    out.append(" tag=");
    push_u64(&mut out, m.tag as u64);
    out.append(" lock=");
    match m.locked_tag {
        Some(t) => push_u64(&mut out, t as u64),
        None => out.append("-"),
    }
    out.append(
        if focused {
            " [focused]\n"
        } else {
            "\n"
        },
    );
    out
}

pub fn list_monitors(state: &State) -> (r: String)
    requires
        state@.wf(),
    ensures
        r@ == list_of_monitors(state@),
{
    let ghost list = state@.desk.list;
    let mut out = String::new();
    let mut i: usize = 0;
    while i < state.monitors.list.len()
        invariant
            i <= state.monitors.list@.len() == list.len(),
            list == state@.desk.list,
            out@ == monitor_lines(list, state@.desk.focus, i as nat),
        decreases state.monitors.list@.len() - i,
    {
        let line = write_monitor(&state.monitors.list[i], i, i == state.monitors.focus);
        out.append(line.as_str());
        i += 1;
    }
    listed(out, "(no monitors)\n")
}

// --- windows ------------------------------------------------------------------------------

/// The line of a window.
pub open spec fn client_line(x: Window, focused: Option<WinId>) -> Text {
    "win="@ + show(x.id as nat) + " tag="@ + show(x.tag as nat) + " app_id="@ + or_dash(
        x.app_id.deep_view(),
    ) + " title="@ + or_dash(x.title.deep_view()) + (if focused == Some(x.id) {
        " [focused]\n"@
    } else {
        "\n"@
    })
}

/// The lines of windows.
pub open spec fn client_lines(windows: Seq<Window>, focused: Option<WinId>) -> Text
    decreases windows.len(),
{
    if windows.len() == 0 {
        Seq::empty()
    } else {
        client_lines(windows.drop_last(), focused) + client_line(windows.last(), focused)
    }
}

/// `list_clients`.
pub open spec fn list_of_clients(w: World) -> Text {
    or_none(client_lines(w.windows, w.focused_window()), "(no clients)\n"@)
}

fn push_client(out: &mut String, x: &Window, focused: Option<WinId>)
    ensures
        final(out)@ == old(out)@ + client_line(*x, focused),
{
    out.append("win=");
    push_u64(out, x.id);
    out.append(" tag=");
    push_u64(out, x.tag as u64);
    out.append(" app_id=");
    push_or_dash(out, &x.app_id);
    out.append(" title=");
    push_or_dash(out, &x.title);
    let mark: bool = match focused {
        Some(id) => id == x.id,
        None => false,
    };
    out.append(
        if mark {
            " [focused]\n"
        } else {
            "\n"
        },
    );
    assert(out@ =~= old(out)@ + client_line(*x, focused));
}

pub fn list_clients(state: &State) -> (r: String)
    requires
        state@.wf(),
    ensures
        r@ == list_of_clients(state@),
{
    let ghost all = state@.windows;
    let focused = state.focused_window();
    let mut out = String::new();
    let mut i: usize = 0;
    assert(all.take(0) =~= Seq::<Window>::empty());
    while i < state.windows.len()
        invariant
            i <= state.windows@.len(),
            all == state.windows@,
            out@ == client_lines(all.take(i as int), focused),
        decreases state.windows@.len() - i,
    {
        assert(all.take(i + 1).drop_last() =~= all.take(i as int));
        push_client(&mut out, &state.windows[i], focused);
        i += 1;
    }
    assert(all.take(i as int) =~= all);
    listed(out, "(no clients)\n")
}

// --- outputs ------------------------------------------------------------------------------

/// The line of an output.
pub open spec fn output_line(o: Output) -> Text {
    show_rect(o.geo) + " wl_output="@ + (match o.wl_name {
        Some(n) => show(n as nat),
        None => "?"@,
    }) + "\n"@
}

/// The lines of outputs.
pub open spec fn output_lines(outputs: Seq<Output>) -> Text
    decreases outputs.len(),
{
    if outputs.len() == 0 {
        Seq::empty()
    } else {
        output_lines(outputs.drop_last()) + output_line(outputs.last())
    }
}

/// `list_outputs`.
pub open spec fn list_of_outputs(w: World) -> Text {
    or_none(output_lines(w.outputs), "(no outputs)\n"@)
}

fn push_output(out: &mut String, o: &Output)
    ensures
        final(out)@ == old(out)@ + output_line(*o),
{
    push_rect(out, o.geo);
    out.append(" wl_output=");
    match o.wl_name {
        Some(n) => push_u64(out, n as u64),
        None => out.append("?"),
    }
    out.append("\n");
    assert(out@ =~= old(out)@ + output_line(*o));
}

pub fn list_outputs(state: &State) -> (r: String)
    ensures
        r@ == list_of_outputs(state@),
{
    let ghost all = state@.outputs;
    let mut out = String::new();
    let mut i: usize = 0;
    assert(all.take(0) =~= Seq::<Output>::empty());
    while i < state.outputs.len()
        invariant
            i <= state.outputs@.len(),
            all == state.outputs@,
            out@ == output_lines(all.take(i as int)),
        decreases state.outputs@.len() - i,
    {
        assert(all.take(i + 1).drop_last() =~= all.take(i as int));
        push_output(&mut out, &state.outputs[i]);
        i += 1;
    }
    assert(all.take(i as int) =~= all);
    listed(out, "(no outputs)\n")
}

// --- bindings -----------------------------------------------------------------------------

/// Texts one after the other.
pub open spec fn run_on(lines: Seq<Text>) -> Text
    decreases lines.len(),
{
    if lines.len() == 0 {
        Seq::empty()
    } else {
        run_on(lines.drop_last()) + lines.last()
    }
}

/// Strings one after the other.
fn concatenate(lines: &Vec<String>) -> (r: String)
    ensures
        r@ == run_on(lines.deep_view()),
{
    let ghost all = lines.deep_view();
    let mut r = String::new();
    let mut i: usize = 0;
    assert(all.take(0) =~= Seq::<Text>::empty());
    while i < lines.len()
        invariant
            i <= lines@.len(),
            all == lines.deep_view(),
            r@ == run_on(all.take(i as int)),
        decreases lines@.len() - i,
    {
        assert(all.take(i + 1).drop_last() =~= all.take(i as int));
        assert(all.take(i + 1).last() == lines@[i as int]@);
        r.append(lines[i].as_str());
        i += 1;
    }
    assert(all.take(i as int) =~= all);
    r
}

/// The line of a binding.
pub open spec fn binding_line(spec: Text, command: Seq<Text>) -> Text {
    spec + "\t"@ + join(command, " "@) + "\n"@
}

/// `list_keybinds`: the lines of the bindings, in order.
pub open spec fn list_of_keybinds(w: World) -> Text {
    or_none(
        run_on(in_order(w.keybinds.map_values(|b: Binding| binding_line(b.spec, b.command)))),
        "(no keybinds)\n"@,
    )
}

fn write_binding(spec: &str, command: &Vec<String>) -> (r: String)
    ensures
        r@ == binding_line(spec@, command.deep_view()),
{
    let mut r = spec.to_owned();
    r.append("\t");
    assert(command.deep_view().skip(0) =~= command.deep_view());
    r.append(join_from(command.as_slice(), 0, " ").as_str());
    r.append("\n");
    r
}

pub fn list_keybinds(state: &State) -> (r: String)
    ensures
        r@ == list_of_keybinds(state@),
{
    let ghost all = state@.keybinds.map_values(|b: Binding| binding_line(b.spec, b.command));
    let mut lines: Vec<String> = Vec::new();
    let mut i: usize = 0;
    assert(lines.deep_view() =~= all.take(0));
    while i < state.keybinds.len()
        invariant
            i <= state.keybinds@.len() == all.len(),
            all == state@.keybinds.map_values(|b: Binding| binding_line(b.spec, b.command)),
            lines.deep_view() == all.take(i as int),
        decreases state.keybinds@.len() - i,
    {
        let ghost before = lines.deep_view();
        let line = write_binding(state.keybinds[i].spec.as_str(), &state.keybinds[i].command);
        lines.push(line);
        i += 1;
        assert(state@.keybinds[i - 1] == state.keybinds@[i - 1].deep_view());
        assert(lines.deep_view() =~= before.push(line@));
        assert(all.take(i as int) =~= all.take(i - 1).push(all[i - 1]));
    }
    assert(all.take(i as int) =~= all);
    listed(concatenate(&sort_strings(&lines)), "(no keybinds)\n")
}

/// The names of gestures that are bound.
pub open spec fn gesture_keys(binds: Seq<(Text, Seq<Text>)>) -> Seq<Text> {
    binds.map_values(|b: (Text, Seq<Text>)| b.0)
}

/// The lines of the gestures of the names.
pub open spec fn gesture_lines(binds: Seq<(Text, Seq<Text>)>, keys: Seq<Text>) -> Text
    decreases keys.len(),
{
    if keys.len() == 0 {
        Seq::empty()
    } else {
        gesture_lines(binds, keys.drop_last()) + binding_line(
            keys.last(),
            match value_of(binds, keys.last()) {
                Some(c) => c,
                None => Seq::empty(),
            },
        )
    }
}

/// `list_gesturebinds`: the lines of the bindings, in order.
pub open spec fn list_of_gesturebinds(w: World) -> Text {
    or_none(
        gesture_lines(w.gesturebinds, in_order(gesture_keys(w.gesturebinds))),
        "(no gesture bindings)\n"@,
    )
}

fn gesture_names(binds: &Vec<(String, Vec<String>)>) -> (r: Vec<String>)
    ensures
        r.deep_view() == gesture_keys(binds.deep_view()),
{
    let ghost all = gesture_keys(binds.deep_view());
    let mut r: Vec<String> = Vec::new();
    let mut i: usize = 0;
    assert(r.deep_view() =~= all.take(0));
    while i < binds.len()
        invariant
            i <= binds@.len(),
            all == gesture_keys(binds.deep_view()),
            r.deep_view() == all.take(i as int),
        decreases binds@.len() - i,
    {
        let ghost before = r.deep_view();
        r.push(binds[i].0.clone());
        i += 1;
        assert(r.deep_view() =~= before.push(all[i - 1]));
        assert(all.take(i as int) =~= all.take(i - 1).push(all[i - 1]));
    }
    assert(all.take(i as int) =~= all);
    r
}

pub fn list_gesturebinds(state: &State) -> (r: String)
    ensures
        r@ == list_of_gesturebinds(state@),
{
    let ghost binds = state@.gesturebinds;
    let keys = sort_strings(&gesture_names(&state.gesturebinds));
    let ghost all = keys.deep_view();
    let mut out = String::new();
    let mut i: usize = 0;
    assert(all.take(0) =~= Seq::<Text>::empty());
    while i < keys.len()
        invariant
            i <= keys@.len(),
            all == keys.deep_view(),
            binds == state@.gesturebinds,
            out@ == gesture_lines(binds, all.take(i as int)),
        decreases keys@.len() - i,
    {
        assert(all.take(i + 1).drop_last() =~= all.take(i as int));
        assert(all.take(i + 1).last() == keys@[i as int]@);
        let k: usize = find_name(&state.gesturebinds, keys[i].as_str());
        if k < state.gesturebinds.len() {
            assert(binds[k as int].1 == state.gesturebinds@[k as int].1.deep_view());
            let line = write_binding(keys[i].as_str(), &state.gesturebinds[k].1);
            out.append(line.as_str());
        } else {
            let none: Vec<String> = Vec::new();
            assert(none.deep_view() =~= Seq::<Text>::empty());
            let line = write_binding(keys[i].as_str(), &none);
            out.append(line.as_str());
        }
        i += 1;
    }
    assert(all.take(i as int) =~= all);
    listed(out, "(no gesture bindings)\n")
}

// --- rules ----------------------------------------------------------------------------------

/// The lines of the first `n` rules.
pub open spec fn rule_lines(rules: Seq<Condition>, n: nat) -> Text
    decreases n,
{
    if n == 0 {
        Seq::empty()
    } else {
        rule_lines(rules, (n - 1) as nat) + show((n - 1) as nat) + ":"@ + rule_line(
            rules[n - 1],
            quoted_name(rules[n - 1]),
        ) + "\n"@
    }
}

/// `list_rules`.
pub open spec fn list_of_rules(w: World) -> Text {
    or_none(rule_lines(w.rules, w.rules.len()), "(no rules)\n"@)
}

pub fn list_rules(state: &State) -> (r: String)
    ensures
        r@ == list_of_rules(state@),
{
    let ghost rules = state@.rules;
    let mut out = String::new();
    let mut i: usize = 0;
    while i < state.rules.len()
        invariant
            i <= state.rules@.len() == rules.len(),
            rules == state@.rules,
            out@ == rule_lines(rules, i as nat),
        decreases state.rules@.len() - i,
    {
        let ghost before = out@;
        assert(rules[i as int] == state.rules@[i as int].deep_view());
        push_u64(&mut out, i as u64);
        out.append(":");
        let line = state.rules[i].describe();
        out.append(line.as_str());
        out.append("\n");
        i += 1;
    }
    listed(out, "(no rules)\n")
}

// --- tags -----------------------------------------------------------------------------------

/// Whether a window of the tag is urgent.
pub open spec fn tag_urgent(windows: Seq<Window>, tag: TagId) -> bool {
    exists|i: int|
        0 <= i < windows.len() && (#[trigger] windows[i]).tag == tag && windows[i].urgent
}

/// The mark of a tag: shown here, urgent, shown elsewhere, in use, or empty.
pub open spec fn tag_mark(w: World, here: Option<TagId>, tag: TagId) -> char {
    if here == Some(tag) {
        '#'
    } else if tag_urgent(w.windows, tag) {
        '!'
    } else if shown_tags(w.desk.list).contains(tag) {
        '%'
    } else if w.tree(tag) is Some && w.tree(tag)->0.windows().len() > 0 {
        ':'
    } else {
        '.'
    }
}

/// The marks of the first `n` tags.
pub open spec fn tag_marks(w: World, here: Option<TagId>, n: nat) -> Text
    decreases n,
{
    if n == 0 {
        Seq::empty()
    } else {
        tag_marks(w, here, (n - 1) as nat).push(tag_mark(w, here, n as TagId)) + show(n) + seq!['\t']
    }
}

/// The tag shown on the monitor that the first argument says, or on the focused one.
pub open spec fn tag_here(w: World, a: Seq<Text>) -> Option<TagId> {
    let m = if a.len() > 0 {
        match find_screen(w.desk.list, selector_text(a[0])) {
            Some(i) => i,
            None => w.desk.focus,
        }
    } else {
        w.desk.focus
    };
    if 0 <= m < w.desk.list.len() {
        Some(w.desk.list[m].tag)
    } else {
        None
    }
}

/// `tag_status [monitor]`: the nine tags, each with a mark.
pub open spec fn tags_status(w: World, a: Seq<Text>) -> Text {
    tag_marks(w, tag_here(w, a), 9).push('\n')
}

/// Whether a window of the tag is urgent.
fn has_urgent(state: &State, tag: TagId) -> (r: bool)
    ensures
        r == tag_urgent(state@.windows, tag),
{
    let mut i: usize = 0;
    while i < state.windows.len()
        invariant
            i <= state.windows@.len(),
            forall|j: int|
                0 <= j < i ==> !((#[trigger] state.windows@[j]).tag == tag && state.windows@[j].urgent),
        decreases state.windows@.len() - i,
    {
        if state.windows[i].tag == tag && state.windows[i].urgent {
            assert(state@.windows[i as int].tag == tag);
            return true;
        }
        i += 1;
    }
    false
}

/// The mark of a tag.
fn mark_of(state: &State, here: Option<TagId>, tag: TagId) -> (r: char)
    ensures
        r == tag_mark(state@, here, tag),
{
    let is_here: bool = match here {
        Some(t) => t == tag,
        None => false,
    };
    if is_here {
        return '#';
    }
    if has_urgent(state, tag) {
        return '!';
    }
    if state.monitors.tag_visible(tag) {
        return '%';
    }
    let k: usize = find_key(&state.tags, tag as u64);
    if k < state.tags.len() {
        assert(state@.trees[k as int].1 == state.tags@[k as int].1@);
        if state.tags[k].1.all_windows().len() > 0 {
            return ':';
        }
    }
    '.'
}

pub fn tag_status(state: &State, a: &[String]) -> (r: String)
    requires
        state@.wf(),
    ensures
        r@ == tags_status(state@, a.deep_view()),
{
    assert(a@.len() > 0 ==> a.deep_view()[0] == a@[0]@);
    let m: usize = if a.len() > 0 {
        match state.monitors.resolve(&MonitorSel::parse(a[0].as_str())) {
            Some(i) => i,
            None => state.monitors.focus,
        }
    } else {
        state.monitors.focus
    };
    let here: Option<TagId> = if m < state.monitors.list.len() {
        Some(state.monitors.list[m].tag)
    } else {
        None
    };
    assert(here == tag_here(state@, a.deep_view()));
    let mut out = String::new();
    let mut tag: u32 = 0;
    while tag < 9
        invariant
            tag <= 9,
            out@ == tag_marks(state@, here, tag as nat),
        decreases 9 - tag,
    {
        tag += 1;
        out.push(mark_of(state, here, tag));
        push_u64(&mut out, tag as u64);
        out.push('\t');
        assert(out@ =~= tag_marks(state@, here, tag as nat));
    }
    out.push('\n');
    out
}

} // verus!
