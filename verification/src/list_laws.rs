//! What the listings and the reports say, line by line.

use vstd::prelude::*;
use crate::attr::{tag_value, urgent_count};
use crate::cmd_tray::{item_line, item_lines, tray, TrayPlan, TrayVerb};
use crate::cmd_window::{focus_changed, hook_three, tag_changed};
use crate::frame::WinId;
use crate::listing::{
    binding_line, client_line, client_lines, list_of_clients, list_of_monitors, list_of_rules, monitor_line,
    monitor_lines, output_line, output_lines, run_on, tag_here, tag_mark, tag_marks, tags_status,
};
use crate::monitor::{show_rect, shown_tags, Screen, TagId};
use crate::number::{show, show_int};
use crate::state::{Deed, Output, Window, World};
use crate::text::{join, Text};
use crate::tray::TrayEntry;

verus! {

// --- tags -------------------------------------------------------------------------------

/// A tag is marked by the first of these that holds: it is shown here, a window of it is
/// urgent, another monitor shows it, it holds windows, or it is empty.
pub proof fn law_tag_mark(w: World, here: Option<TagId>, tag: TagId)
    ensures
        here == Some(tag) <==> tag_mark(w, here, tag) == '#',
        here != Some(tag) && (exists|i: int|
            0 <= i < w.windows.len() && (#[trigger] w.windows[i]).tag == tag && w.windows[i].urgent) ==> tag_mark(
            w,
            here,
            tag,
        ) == '!',
        tag_mark(w, here, tag) == '!' ==> exists|i: int|
            0 <= i < w.windows.len() && (#[trigger] w.windows[i]).tag == tag && w.windows[i].urgent,
        tag_mark(w, here, tag) == '%' ==> exists|i: int|
            0 <= i < w.desk.list.len() && (#[trigger] w.desk.list[i]).tag == tag,
        tag_mark(w, here, tag) == ':' ==> w.tree(tag) is Some && w.tree(tag)->0.windows().len() > 0,
        tag_mark(w, here, tag) == '.' ==> (w.tree(tag) is None || w.tree(tag)->0.windows().len() == 0) && forall|i: int|
            0 <= i < w.desk.list.len() ==> (#[trigger] w.desk.list[i]).tag != tag,
{
    if tag_mark(w, here, tag) == '.' {
        assert forall|i: int| 0 <= i < w.desk.list.len() implies (#[trigger] w.desk.list[i]).tag != tag by {
            if w.desk.list[i].tag == tag {
                assert(shown_tags(w.desk.list).contains(tag));
            }
        }
    }
}

/// The tags are listed from the first on, each behind its mark.
pub proof fn law_tag_marks(w: World, here: Option<TagId>, n: nat)
    requires
        n < u32::MAX,
    ensures
        tag_marks(w, here, n + 1) == tag_marks(w, here, n) + seq![tag_mark(w, here, (n + 1) as TagId)] + show(n + 1)
            + seq!['\t'],
        tag_marks(w, here, 0).len() == 0,
{
    assert(tag_marks(w, here, n + 1) =~= tag_marks(w, here, n) + seq![tag_mark(w, here, (n + 1) as TagId)] + show(n + 1)
        + seq!['\t']);
}

/// The status is that of the focused monitor, or of the one that is named where there is
/// such a one.
pub proof fn law_tag_here(w: World, i: usize)
    requires
        0 <= w.desk.focus < w.desk.list.len(),
        i < w.desk.list.len(),
    ensures
        tag_here(w, Seq::empty()) == Some(w.desk.list[w.desk.focus].tag),
        tag_here(w, seq![show(i as nat)]) == Some(w.desk.list[i as int].tag),
        tags_status(w, Seq::empty()) == tag_marks(w, Some(w.desk.list[w.desk.focus].tag), 9).push('\n'),
{
    crate::screen_laws::law_by_number(w.desk.list, i as nat);
}

/// What is read of a tag is how it is.
pub proof fn law_tag_read(w: World, tag: TagId)
    ensures
        tag_value(w, tag, "index"@) == Ok::<Text, Text>(show(tag as nat)),
        tag_value(w, tag, "name"@) == Ok::<Text, Text>(show(tag as nat)),
        w.tree(tag) is Some ==> tag_value(w, tag, "client_count"@) == Ok::<Text, Text>(show(w.tree(tag)->0.windows().len())),
        w.tree(tag) is Some ==> tag_value(w, tag, "frame_count"@) == Ok::<Text, Text>(show(w.tree(tag)->0.leaves())),
        w.tree(tag) is None ==> tag_value(w, tag, "client_count"@) == Ok::<Text, Text>(show(0)) && tag_value(
            w,
            tag,
            "frame_count"@,
        ) == Ok::<Text, Text>(show(1)),
        shown_tags(w.desk.list).contains(tag) ==> tag_value(w, tag, "visible"@) == Ok::<Text, Text>("true"@),
        !shown_tags(w.desk.list).contains(tag) ==> tag_value(w, tag, "visible"@) == Ok::<Text, Text>("false"@),
        w.floating_tags.contains(tag) ==> tag_value(w, tag, "floating"@) == Ok::<Text, Text>("true"@),
        !w.floating_tags.contains(tag) ==> tag_value(w, tag, "floating"@) == Ok::<Text, Text>("false"@),
        tag_value(w, tag, "urgent_count"@) == Ok::<Text, Text>(show(urgent_count(w.windows, tag))),
{
    reveal_strlit("index");
    reveal_strlit("name");
    reveal_strlit("client_count");
    reveal_strlit("frame_count");
    reveal_strlit("urgent_count");
    reveal_strlit("visible");
    reveal_strlit("floating");
    assert("index"@.len() == 5 && "name"@.len() == 4 && "client_count"@.len() == 12 && "frame_count"@.len() == 11);
    assert("urgent_count"@.len() == 12 && "visible"@.len() == 7 && "floating"@.len() == 8);
    assert("client_count"@[0] == 'c' && "urgent_count"@[0] == 'u');
}

/// Each urgent window of a tag counts once, and no other does.
pub proof fn law_urgent_count(windows: Seq<Window>, x: Window, tag: TagId)
    ensures
        x.tag == tag && x.urgent ==> urgent_count(windows.push(x), tag) == urgent_count(windows, tag) + 1,
        x.tag != tag || !x.urgent ==> urgent_count(windows.push(x), tag) == urgent_count(windows, tag),
        urgent_count(Seq::empty(), tag) == 0,
{
    assert(windows.push(x).drop_last() =~= windows);
}

// --- lines ------------------------------------------------------------------------------

/// A monitor has a line with its number, its name, where it is, how high it lies, the tag
/// that it shows and the one that it is locked to; the focused one is marked.
pub proof fn law_monitor_line(m: Screen, i: nat, name: Text, tag: TagId)
    ensures
        m.name == Some(name) && m.locked_tag is None ==> monitor_line(m, i as int, false) == show(i) + ": id="@ + show(
            m.id.0 as nat,
        ) + " name="@ + name + " "@ + show_rect(m.rect) + " z="@ + show_int(m.z as int) + " tag="@ + show(m.tag as nat)
            + " lock="@ + "-"@ + "\n"@,
        m.name is None && m.locked_tag == Some(tag) ==> monitor_line(m, i as int, true) == show(i) + ": id="@ + show(
            m.id.0 as nat,
        ) + " name="@ + "-"@ + " "@ + show_rect(m.rect) + " z="@ + show_int(m.z as int) + " tag="@ + show(m.tag as nat)
            + " lock="@ + show(tag as nat) + " [focused]\n"@,
{
}

/// Monitors, windows and outputs are listed one line each, in their order.
pub proof fn law_lines(list: Seq<Screen>, focus: int, n: nat, ws: Seq<Window>, x: Window, f: Option<WinId>, os: Seq<Output>, o: Output)
    ensures
        monitor_lines(list, focus, n + 1) == monitor_lines(list, focus, n) + monitor_line(list[n as int], n as int, n == focus),
        client_lines(ws.push(x), f) == client_lines(ws, f) + client_line(x, f),
        output_lines(os.push(o)) == output_lines(os) + output_line(o),
        monitor_lines(list, focus, 0).len() == 0 && client_lines(Seq::empty(), f).len() == 0,
{
    assert(ws.push(x).drop_last() =~= ws);
    assert(os.push(o).drop_last() =~= os);
}

/// A window has a line with its number, its tag, what it is and its title; the focused one
/// is marked.
pub proof fn law_client_line(x: Window, app: Text, title: Text)
    requires
        x.app_id.deep_view() == Some(app),
        x.title.deep_view() == Some(title),
    ensures
        client_line(x, Some(x.id)) == "win="@ + show(x.id as nat) + " tag="@ + show(x.tag as nat) + " app_id="@ + app
            + " title="@ + title + " [focused]\n"@,
        client_line(x, None) == "win="@ + show(x.id as nat) + " tag="@ + show(x.tag as nat) + " app_id="@ + app
            + " title="@ + title + "\n"@,
{
}

/// An output has a line with where it is and its number.
pub proof fn law_output_line(o: Output, n: u32)
    requires
        o.wl_name == Some(n),
    ensures
        output_line(o) == show_rect(o.geo) + " wl_output="@ + show(n as nat) + "\n"@,
{
}

/// A binding has a line with what it is bound to, behind a tab.
pub proof fn law_binding_line(spec: Text, a: Text, b: Text, before: Seq<Text>, last: Text)
    ensures
        binding_line(spec, seq![a]) == spec + "\t"@ + a + "\n"@,
        binding_line(spec, seq![a, b]) == spec + "\t"@ + (a + " "@ + b) + "\n"@,
        run_on(before.push(last)) == run_on(before) + last,
        run_on(Seq::empty()).len() == 0,
{
    reveal_with_fuel(join, 3);
    assert(before.push(last).drop_last() =~= before);
    let one = seq![a];
    let two = seq![a, b];
    assert(join(one, " "@) =~= a);
    assert(two.drop_last() =~= one);
    assert(join(two, " "@) =~= a + " "@ + b);
}

/// Where there is nothing to list, that is what is said.
pub proof fn law_nothing_listed(w: World)
    ensures
        w.desk.list.len() == 0 ==> list_of_monitors(w) == "(no monitors)\n"@,
        w.windows.len() == 0 ==> list_of_clients(w) == "(no clients)\n"@,
        w.rules.len() == 0 ==> list_of_rules(w) == "(no rules)\n"@,
{
}

// --- the tray ---------------------------------------------------------------------------

/// An item is told what the verb says, the only one where none is named; otherwise there is
/// a reply.
pub proof fn law_tray_told(w: World, key: Text)
    requires
        w.globals.tray,
    ensures
        tray(w, seq!["activate"@, key]) == TrayPlan::Tell(TrayVerb::Activate, key),
        tray(w, seq!["secondary"@, key]) == TrayPlan::Tell(TrayVerb::Secondary, key),
        tray(w, seq!["menu"@, key]) == TrayPlan::Tell(TrayVerb::Menu, key),
        w.tray_items.len() == 1 ==> tray(w, seq!["menu"@]) == TrayPlan::Tell(TrayVerb::Menu, w.tray_items[0].key),
        w.tray_items.len() != 1 ==> tray(w, seq!["menu"@]) is Reply,
        tray(w, Seq::empty()) is Reply,
{
    reveal_strlit("activate");
    reveal_strlit("secondary");
    reveal_strlit("menu");
    assert("activate"@.len() == 8 && "secondary"@.len() == 9 && "menu"@.len() == 4);
}

/// An item has a line with its key, its status and its title, and whether it has an icon.
pub proof fn law_item_line(e: TrayEntry, title: Text, before: Seq<TrayEntry>)
    ensures
        e.icon is Some ==> item_line(e, title) == "  "@ + e.key + " status="@ + e.status + " icon="@ + "yes"@ + " title="@
            + title + "\n"@,
        e.icon is None ==> item_line(e, title) == "  "@ + e.key + " status="@ + e.status + " icon="@ + "no(placeholder)"@
            + " title="@ + title + "\n"@,
        item_lines(before.push(e)) == item_lines(before) + item_line(e, crate::rules::quoted(e.title)),
{
    assert(before.push(e).drop_last() =~= before);
}

// --- what listeners are told ------------------------------------------------------------

/// Those who listen are told the new tag and the monitor, or the window and its title, in
/// fields with tabs between.
pub proof fn law_hooks(w: World, id: WinId, title: Text)
    requires
        w.win(id).title.deep_view() == Some(title),
    ensures
        tag_changed(w).effects == w.effects.push(
            Deed::Hook(
                "tag_changed"@ + "\t"@ + show(w.focused_tag() as nat) + "\t"@ + show(w.desk.focus as nat) + "\n"@,
            ),
        ),
        focus_changed(w, id).effects == w.effects.push(
            Deed::Hook("focus_changed"@ + "\t"@ + show(id as nat) + "\t"@ + title + "\n"@),
        ),
        hook_three(w, title, title, title).windows == w.windows,
{
}

} // verus!
